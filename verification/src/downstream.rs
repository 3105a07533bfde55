//! One subscriber of a region: what it asked for and how far it has come.

use vstd::prelude::*;
use crate::Ts;
use crate::bytes::{bytes_lt, lex_le, lex_lt};
use crate::event::LogKind;

verus! {

/// Which kind of keys a subscriber follows.
#[derive(Clone, Copy, Debug, PartialEq, Eq, Structural)]
pub enum KeyApi {
    /// Keys written by transactions.
    Txn,
    /// Keys written outside transactions.
    Raw,
}

/// One subscriber attached to a region.
#[derive(Debug)]
pub struct Downstream {
    /// The id that the endpoint gave the subscriber.
    pub id: u64,
    /// The id that the subscriber gave its request.
    pub request_id: u64,
    /// The first key the subscriber follows.
    pub start_key: Vec<u8>,
    /// The first key it no longer follows; empty for no upper end.
    pub end_key: Vec<u8>,
    /// The timestamp from which the subscriber wants changes.
    pub checkpoint_ts: Ts,
    pub read_old_value: bool,
    pub filter_loop: bool,
    pub key_api: KeyApi,
    /// Whether the subscriber's snapshot scan has ended.
    pub initialized: bool,
    /// How many live changes the region had buffered when the subscriber
    /// joined: its own scan covers them.
    pub join_pos: usize,
}

/// The mathematical value of a `Downstream`.
pub struct DownstreamView {
    pub id: u64,
    pub request_id: u64,
    pub start_key: Seq<u8>,
    pub end_key: Seq<u8>,
    pub checkpoint_ts: Ts,
    pub read_old_value: bool,
    pub filter_loop: bool,
    pub key_api: KeyApi,
    pub initialized: bool,
    pub join_pos: nat,
}

impl View for Downstream {
    type V = DownstreamView;

    open spec fn view(&self) -> DownstreamView {
        DownstreamView {
            id: self.id,
            request_id: self.request_id,
            start_key: self.start_key@,
            end_key: self.end_key@,
            checkpoint_ts: self.checkpoint_ts,
            read_old_value: self.read_old_value,
            filter_loop: self.filter_loop,
            key_api: self.key_api,
            initialized: self.initialized,
            join_pos: self.join_pos as nat,
        }
    }
}

impl DownstreamView {
    /// Whether `key` lies in the subscriber's range.
    pub open spec fn covers(self, key: Seq<u8>) -> bool {
        lex_le(self.start_key, key) && (self.end_key.len() == 0 || lex_lt(key, self.end_key))
    }

    /// Whether the subscriber is to receive a row of kind `kind` for `key`,
    /// written with transaction source `source` and, if `raw`, outside any
    /// transaction. The key must lie in its range and be of the kind it
    /// follows; and a subscriber that filters replication loops receives of
    /// a looped transaction only the rollback.
    pub open spec fn accepts(self, kind: LogKind, key: Seq<u8>, source: u64, raw: bool) -> bool {
        &&& self.covers(key)
        &&& (self.key_api == KeyApi::Raw) == raw
        &&& !(self.filter_loop && source != 0 && kind != LogKind::Rollback)
    }

    /// Whether a buffered change at place `pos` came after the subscriber
    /// joined; a change that was never buffered did.
    pub open spec fn joined_by(self, pos: Option<nat>) -> bool {
        match pos {
            Some(p) => self.join_pos <= p,
            None => true,
        }
    }
}

impl Downstream {
    /// Whether `key` lies in the subscriber's range.
    pub fn covers(&self, key: &[u8]) -> (r: bool)
        ensures
            r == self@.covers(key@),
    {
        !bytes_lt(key, self.start_key.as_slice()) && (self.end_key.len() == 0 || bytes_lt(
            key,
            self.end_key.as_slice(),
        ))
    }

    /// Whether the subscriber is to receive a row of this kind and key.
    pub fn accepts(&self, kind: LogKind, key: &[u8], source: u64, raw: bool) -> (r: bool)
        ensures
            r == self@.accepts(kind, key@, source, raw),
    {
        let is_raw = match self.key_api {
            KeyApi::Raw => true,
            KeyApi::Txn => false,
        };
        let is_rollback = match kind {
            LogKind::Rollback => true,
            _ => false,
        };
        self.covers(key) && is_raw == raw && !(self.filter_loop && source != 0 && !is_rollback)
    }

    /// Whether a buffered change at place `pos` came after the subscriber joined.
    pub fn joined_by(&self, pos: Option<usize>) -> (r: bool)
        ensures
            r == self@.joined_by(
                match pos {
                    Some(p) => Some(p as nat),
                    None => None,
                },
            ),
    {
        match pos {
            Some(p) => self.join_pos <= p,
            None => true,
        }
    }
}

} // verus!
