//! The raw records of the transaction layer, as the storage engine reports
//! them from the apply path and from a snapshot scan.

use vstd::prelude::*;
use crate::Ts;
use crate::bytes::{copy_bytes, opt_view};
use crate::event::Op;

verus! {

/// What a lock record stands for.
#[derive(Clone, Copy, Debug, PartialEq, Eq, Structural)]
pub enum LockKind {
    /// The prewrite of a put.
    Put,
    /// The prewrite of a delete.
    Delete,
    /// A lock that protects a read and carries no data.
    Lock,
    /// A pessimistic lock that no prewrite has followed yet.
    Pessimistic,
}

/// What a write record stands for.
#[derive(Clone, Copy, Debug, PartialEq, Eq, Structural)]
pub enum WriteKind {
    /// A committed put.
    Put,
    /// A committed delete.
    Delete,
    /// The commit of a lock that carried no data.
    Lock,
    /// A rollback.
    Rollback,
}

/// A record of the lock column: a transaction's provisional write.
#[derive(Debug)]
pub struct LockRecord {
    pub kind: LockKind,
    pub key: Vec<u8>,
    pub start_ts: Ts,
    /// Not 0 where the transaction is pessimistic.
    pub for_update_ts: Ts,
    pub value: Vec<u8>,
    /// Not 0 where the write comes from a replication loop.
    pub txn_source: u64,
    /// The value the key had before, where the transaction layer saw it when
    /// it wrote the lock; empty where the key had none.
    pub old_value: Option<Vec<u8>>,
}

/// A record of the write column: a commit or a rollback.
#[derive(Debug)]
pub struct WriteRecord {
    pub kind: WriteKind,
    pub key: Vec<u8>,
    pub start_ts: Ts,
    pub commit_ts: Ts,
    pub value: Vec<u8>,
    /// Whether the record also notes the rollback of another transaction that
    /// started at its commit timestamp.
    pub overlapped_rollback: bool,
    /// The commit timestamp of the version that superseded this one.
    pub gc_fence: Option<Ts>,
    /// Not 0 where the write comes from a replication loop.
    pub txn_source: u64,
    /// The value the key had before, where the storage layer reports it.
    pub old_value: Option<Vec<u8>>,
}

/// A write made outside any transaction.
#[derive(Debug)]
pub struct RawWrite {
    pub op: Op,
    pub key: Vec<u8>,
    pub value: Vec<u8>,
    pub ts: Ts,
}

/// One observed change of the store.
#[derive(Debug)]
pub enum Mutation {
    Lock(LockRecord),
    Write(WriteRecord),
    Raw(RawWrite),
}

/// The mathematical value of a `LockRecord`.
pub struct LockRecordView {
    pub kind: LockKind,
    pub key: Seq<u8>,
    pub start_ts: Ts,
    pub for_update_ts: Ts,
    pub value: Seq<u8>,
    pub txn_source: u64,
    pub old_value: Option<Seq<u8>>,
}

/// The mathematical value of a `WriteRecord`.
pub struct WriteRecordView {
    pub kind: WriteKind,
    pub key: Seq<u8>,
    pub start_ts: Ts,
    pub commit_ts: Ts,
    pub value: Seq<u8>,
    pub overlapped_rollback: bool,
    pub gc_fence: Option<Ts>,
    pub txn_source: u64,
    pub old_value: Option<Seq<u8>>,
}

/// The mathematical value of a `RawWrite`.
pub struct RawWriteView {
    pub op: Op,
    pub key: Seq<u8>,
    pub value: Seq<u8>,
    pub ts: Ts,
}

/// The mathematical value of a `Mutation`.
pub enum MutationView {
    Lock(LockRecordView),
    Write(WriteRecordView),
    Raw(RawWriteView),
}

impl View for LockRecord {
    type V = LockRecordView;

    open spec fn view(&self) -> LockRecordView {
        LockRecordView {
            kind: self.kind,
            key: self.key@,
            start_ts: self.start_ts,
            for_update_ts: self.for_update_ts,
            value: self.value@,
            txn_source: self.txn_source,
            old_value: opt_view(self.old_value),
        }
    }
}

impl View for WriteRecord {
    type V = WriteRecordView;

    open spec fn view(&self) -> WriteRecordView {
        WriteRecordView {
            kind: self.kind,
            key: self.key@,
            start_ts: self.start_ts,
            commit_ts: self.commit_ts,
            value: self.value@,
            overlapped_rollback: self.overlapped_rollback,
            gc_fence: self.gc_fence,
            txn_source: self.txn_source,
            old_value: opt_view(self.old_value),
        }
    }
}

impl View for RawWrite {
    type V = RawWriteView;

    open spec fn view(&self) -> RawWriteView {
        RawWriteView { op: self.op, key: self.key@, value: self.value@, ts: self.ts }
    }
}

impl View for Mutation {
    type V = MutationView;

    open spec fn view(&self) -> MutationView {
        match self {
            Mutation::Lock(l) => MutationView::Lock(l@),
            Mutation::Write(w) => MutationView::Write(w@),
            Mutation::Raw(r) => MutationView::Raw(r@),
        }
    }
}

impl LockRecordView {
    /// The change that the lock prepares, if it carries data.
    pub open spec fn op(self) -> Option<Op> {
        match self.kind {
            LockKind::Put => Some(Op::Put),
            LockKind::Delete => Some(Op::Delete),
            _ => None,
        }
    }

    /// Whether the lock is a put that came without its value: a lock that
    /// was written again when the status of its transaction was checked.
    pub open spec fn is_bare_put(self) -> bool {
        self.kind == LockKind::Put && self.value.len() == 0
    }

    /// The timestamp at which the previous value of the key is read: for a
    /// pessimistic transaction the one at which it locked the key.
    pub open spec fn read_ts(self) -> Ts {
        if self.for_update_ts != 0 { self.for_update_ts } else { self.start_ts }
    }
}

impl WriteRecordView {
    /// The change that the record commits, if it carries data.
    pub open spec fn op(self) -> Option<Op> {
        match self.kind {
            WriteKind::Put => Some(Op::Put),
            WriteKind::Delete => Some(Op::Delete),
            _ => None,
        }
    }

    /// Whether the version was superseded at or before `ts`, so that a scan
    /// from `ts` on does not report it.
    pub open spec fn fenced_at(self, ts: Ts) -> bool {
        match self.gc_fence {
            Some(fence) => fence != 0 && fence <= ts,
            None => false,
        }
    }
}

impl LockRecord {
    /// The change that the lock prepares, if it carries data.
    pub fn op(&self) -> (r: Option<Op>)
        ensures
            r == self@.op(),
    {
        match self.kind {
            LockKind::Put => Some(Op::Put),
            LockKind::Delete => Some(Op::Delete),
            _ => None,
        }
    }

    /// Whether the lock is a put that came without its value.
    pub fn is_bare_put(&self) -> (r: bool)
        ensures
            r == self@.is_bare_put(),
    {
        match self.kind {
            LockKind::Put => self.value.len() == 0,
            _ => false,
        }
    }

    /// The timestamp at which the previous value of the key is read.
    pub fn read_ts(&self) -> (r: Ts)
        ensures
            r == self@.read_ts(),
    {
        if self.for_update_ts != 0 { self.for_update_ts } else { self.start_ts }
    }
}

impl WriteRecord {
    /// The change that the record commits, if it carries data.
    pub fn op(&self) -> (r: Option<Op>)
        ensures
            r == self@.op(),
    {
        match self.kind {
            WriteKind::Put => Some(Op::Put),
            WriteKind::Delete => Some(Op::Delete),
            _ => None,
        }
    }

    /// Whether the version was superseded at or before `ts`.
    pub fn fenced_at(&self, ts: Ts) -> (r: bool)
        ensures
            r == self@.fenced_at(ts),
    {
        match self.gc_fence {
            Some(fence) => fence != 0 && fence <= ts,
            None => false,
        }
    }
}

/// A copy of an optional byte string.
pub fn copy_opt_bytes(o: &Option<Vec<u8>>) -> (r: Option<Vec<u8>>)
    ensures
        opt_view(r) == opt_view(*o),
{
    match o {
        Some(v) => Some(copy_bytes(v.as_slice())),
        None => None,
    }
}

} // verus!
