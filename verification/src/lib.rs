//! Change-data-capture engine for one node of a transactional key-value
//! store, with the decisions of the node's status service.
//!
//! For every subscribed region the engine turns the raw lock and write
//! records of the transaction layer into change events, merges a snapshot
//! scan with the live stream, keeps a resolved timestamp per region and
//! caches previous values. All storage, consensus and network work is left to
//! the caller, which hands in plain values and sends out what comes back.
//!
//! - `endpoint`: the registry of regions, subscribe requests and the ticker.
//! - `delegate`: the state machine of one region.
//! - `classify`: from records to rows, and the transactions under way.
//! - `resolver`: the locks of a region and its resolved timestamp.
//! - `old_value`: the bounded cache of previous values.
//! - `batch`: rows in batches of bounded size.
//! - `outbox`: what a step sends, sorted for the subscribers' sinks.
//! - `record`, `event`, `downstream`: what goes in, what comes out, and to whom.
//! - `status`: the routes and answers of the status service.

pub mod batch;
pub mod bytes;
pub mod classify;
pub mod delegate;
pub mod downstream;
pub mod endpoint;
pub mod event;
pub mod old_value;
pub mod outbox;
pub mod record;
pub mod resolver;
pub mod status;
pub mod vecs;

use vstd::prelude::*;

verus! {

/// A timestamp issued by the timestamp authority.
pub type Ts = u64;

} // verus!
