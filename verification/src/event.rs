//! The events that subscribers receive, and their mathematical views.

use vstd::prelude::*;
use crate::Ts;
use crate::bytes::copy_bytes;

verus! {

/// What a change row reports about its transaction.
#[derive(Clone, Copy, Debug, PartialEq, Eq, Structural)]
pub enum LogKind {
    /// A provisional write: the first phase of a two-phase commit.
    Prewrite,
    /// The second phase of a commit whose prewrite was reported before.
    Commit,
    /// Prewrite and commit seen together: a scanned version or a one-phase commit.
    Committed,
    /// The transaction gave up its write.
    Rollback,
    /// The marker that ends a subscriber's snapshot scan.
    Initialized,
}

/// What a change row does to its key.
#[derive(Clone, Copy, Debug, PartialEq, Eq, Structural)]
pub enum Op {
    Put,
    Delete,
}

/// Why a subscription was refused or ended.
#[derive(Clone, Copy, Debug, PartialEq, Eq, Structural)]
pub enum ErrorKind {
    /// The region's epoch is not the one the subscriber knows.
    EpochNotMatch,
    /// This node does not lead the region; the field is the store that may.
    NotLeader(u64),
    /// The subscriber belongs to another cluster.
    ClusterIdMismatch,
    /// The request id is already registered for the region.
    DuplicateRequest,
    /// No subscription exists for the region.
    RegionNotFound,
}

/// One change to one key.
#[derive(Debug)]
pub struct DataChange {
    pub kind: LogKind,
    pub op: Op,
    pub key: Vec<u8>,
    pub value: Vec<u8>,
    pub old_value: Vec<u8>,
    pub start_ts: Ts,
    pub commit_ts: Ts,
}

/// The mathematical value of a `DataChange`.
pub struct Row {
    pub kind: LogKind,
    pub op: Op,
    pub key: Seq<u8>,
    pub value: Seq<u8>,
    pub old_value: Seq<u8>,
    pub start_ts: Ts,
    pub commit_ts: Ts,
}

impl Row {
    /// The bytes a row weighs when batches are filled.
    pub open spec fn size(self) -> nat {
        self.key.len() + self.value.len() + self.old_value.len()
    }

    /// The marker row that ends a snapshot scan.
    pub open spec fn initialized() -> Row {
        Row {
            kind: LogKind::Initialized,
            op: Op::Put,
            key: Seq::empty(),
            value: Seq::empty(),
            old_value: Seq::empty(),
            start_ts: 0,
            commit_ts: 0,
        }
    }
}

impl View for DataChange {
    type V = Row;

    open spec fn view(&self) -> Row {
        Row {
            kind: self.kind,
            op: self.op,
            key: self.key@,
            value: self.value@,
            old_value: self.old_value@,
            start_ts: self.start_ts,
            commit_ts: self.commit_ts,
        }
    }
}

impl DataChange {
    /// The marker row that ends a snapshot scan.
    pub fn initialized() -> (r: DataChange)
        ensures
            r@ == Row::initialized(),
    {
        DataChange {
            kind: LogKind::Initialized,
            op: Op::Put,
            key: Vec::new(),
            value: Vec::new(),
            old_value: Vec::new(),
            start_ts: 0,
            commit_ts: 0,
        }
    }

    /// A copy of the row.
    pub fn duplicate(&self) -> (r: DataChange)
        ensures
            r@ == self@,
    {
        DataChange {
            kind: self.kind,
            op: self.op,
            key: copy_bytes(self.key.as_slice()),
            value: copy_bytes(self.value.as_slice()),
            old_value: copy_bytes(self.old_value.as_slice()),
            start_ts: self.start_ts,
            commit_ts: self.commit_ts,
        }
    }
}

/// What a subscriber is sent.
#[derive(Debug)]
pub enum Event {
    /// A change to a key, or the marker that ends the scan.
    Change(DataChange),
    /// No later commit in these regions carries a timestamp at or below `ts`.
    ResolvedTs { region_ids: Vec<u64>, ts: Ts },
    /// The subscription ended.
    Error(ErrorKind),
}

/// The mathematical value of an `Event`.
pub enum EventView {
    Change(Row),
    ResolvedTs { region_ids: Seq<u64>, ts: Ts },
    Error(ErrorKind),
}

impl View for Event {
    type V = EventView;

    open spec fn view(&self) -> EventView {
        match self {
            Event::Change(row) => EventView::Change(row@),
            Event::ResolvedTs { region_ids, ts } => EventView::ResolvedTs {
                region_ids: region_ids@,
                ts: *ts,
            },
            Event::Error(kind) => EventView::Error(*kind),
        }
    }
}

/// An event together with the subscriber it is for.
#[derive(Debug)]
pub struct Delivery {
    pub downstream: u64,
    pub event: Event,
}

/// The mathematical value of a `Delivery`.
pub struct DeliveryView {
    pub downstream: u64,
    pub event: EventView,
}

impl View for Delivery {
    type V = DeliveryView;

    open spec fn view(&self) -> DeliveryView {
        DeliveryView { downstream: self.downstream, event: self.event@ }
    }
}

/// The views of a sequence of values, in order.
pub open spec fn views<T: View>(s: Seq<T>) -> Seq<T::V> {
    Seq::new(s.len(), |i: int| s[i]@)
}

/// Appending a value appends its view.
pub proof fn lemma_views_push<T: View>(s: Seq<T>, x: T)
    ensures
        views(s.push(x)) == views(s).push(x@),
{
    assert(views(s.push(x)) =~= views(s).push(x@));
}

/// The views of a concatenation are the concatenated views.
pub proof fn lemma_views_add<T: View>(s: Seq<T>, t: Seq<T>)
    ensures
        views(s + t) == views(s) + views(t),
{
    assert(views(s + t) =~= views(s) + views(t));
}

} // verus!
