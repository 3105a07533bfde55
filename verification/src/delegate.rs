//! The state machine of one subscribed region.
//!
//! A delegate starts out pending: subscribers scan a snapshot of the region
//! while the changes that arrive meanwhile are buffered. When the first scan
//! ends the buffered changes are replayed in the order in which they came,
//! and from then on changes are passed on as they arrive. A failure stops the
//! delegate for good.

use vstd::prelude::*;
use crate::Ts;
use crate::bytes::opt_view;
use crate::classify::{Emission, Emitted, Ledger, LedgerView};
use crate::downstream::{Downstream, DownstreamView};
use crate::event::{
    DataChange, Delivery, DeliveryView, ErrorKind, Event, EventView, Row, lemma_views_push, views,
};
use crate::old_value::{CacheView, OldValueCache};
use crate::record::{Mutation, MutationView};
use crate::resolver::{ResolverView, TrackedLock};
use crate::vecs::reversed;

verus! {

/// The version of a region's range and membership.
#[derive(Clone, Copy, Debug, PartialEq, Eq, Structural)]
pub struct RegionEpoch {
    pub conf_ver: u64,
    pub version: u64,
}

impl RegionEpoch {
    /// Whether this is the epoch that no region ever has.
    pub open spec fn is_zero(self) -> bool {
        self.conf_ver == 0 && self.version == 0
    }

    /// Whether this is the epoch that no region ever has.
    pub fn zero(&self) -> (r: bool)
        ensures
            r == self.is_zero(),
    {
        self.conf_ver == 0 && self.version == 0
    }
}

/// Where a delegate stands.
#[derive(Clone, Copy, Debug, PartialEq, Eq, Structural)]
pub enum DelegateState {
    /// No scan has ended yet; live changes are buffered.
    Pending,
    /// Live changes are passed on as they arrive.
    Initialized,
    /// The delegate failed and does nothing more.
    Stopped(ErrorKind),
}

/// A live change that waits for the first scan to end, with what the caller
/// read from storage for its previous value, if it did.
#[derive(Debug)]
pub struct Buffered {
    pub mutation: Mutation,
    pub fetched: Option<Vec<u8>>,
}

/// The mathematical value of a `Buffered`.
pub struct BufferedView {
    pub mutation: MutationView,
    pub fetched: Option<Seq<u8>>,
}

impl View for Buffered {
    type V = BufferedView;

    open spec fn view(&self) -> BufferedView {
        BufferedView { mutation: self.mutation@, fetched: opt_view(self.fetched) }
    }
}

/// The place of a buffered change, as a number.
pub open spec fn pos_view(pos: Option<usize>) -> Option<nat> {
    match pos {
        Some(p) => Some(p as nat),
        None => None,
    }
}

/// A row for one subscriber.
pub open spec fn change_for(id: u64, row: Row) -> DeliveryView {
    DeliveryView { downstream: id, event: EventView::Change(row) }
}

/// The deliveries of a row to the subscribers that are to receive it, in the
/// order in which they joined: to those whose scan has ended if
/// `initialized`, else to those that still scan.
pub open spec fn fan_out(
    ds: Seq<DownstreamView>,
    e: Emitted,
    pos: Option<nat>,
    initialized: bool,
) -> Seq<DeliveryView>
    decreases ds.len(),
{
    if ds.len() == 0 {
        Seq::empty()
    } else {
        let rest = fan_out(ds.drop_last(), e, pos, initialized);
        let d = ds.last();
        if d.initialized == initialized && d.accepts(e.row.kind, e.row.key, e.source, e.raw)
            && d.joined_by(pos) {
            rest.push(change_for(d.id, e.row))
        } else {
            rest
        }
    }
}

/// The held deliveries for subscriber `id` if `matching`, else the others.
pub open spec fn select(held: Seq<DeliveryView>, id: u64, matching: bool) -> Seq<DeliveryView>
    decreases held.len(),
{
    if held.len() == 0 {
        held
    } else if (held.last().downstream == id) == matching {
        select(held.drop_last(), id, matching).push(held.last())
    } else {
        select(held.drop_last(), id, matching)
    }
}

/// The first subscriber with `id` whose scan has not ended.
pub open spec fn scanning(ds: Seq<DownstreamView>, id: u64) -> Option<DownstreamView>
    decreases ds.len(),
{
    if ds.len() == 0 {
        None
    } else {
        match scanning(ds.drop_last(), id) {
            Some(d) => Some(d),
            None => if ds.last().id == id && !ds.last().initialized {
                Some(ds.last())
            } else {
                None
            },
        }
    }
}

/// The subscribers after the scan of subscriber `id` has ended.
pub open spec fn mark_initialized(ds: Seq<DownstreamView>, id: u64) -> Seq<DownstreamView> {
    Seq::new(
        ds.len(),
        |i: int| if ds[i].id == id { DownstreamView { initialized: true, ..ds[i] } } else { ds[i] },
    )
}

/// The subscribers other than `id`.
pub open spec fn others(ds: Seq<DownstreamView>, id: u64) -> Seq<DownstreamView>
    decreases ds.len(),
{
    if ds.len() == 0 {
        ds
    } else if ds.last().id == id {
        others(ds.drop_last(), id)
    } else {
        others(ds.drop_last(), id).push(ds.last())
    }
}

/// Whether a subscriber is registered under `request_id`.
pub open spec fn has_request(ds: Seq<DownstreamView>, request_id: u64) -> bool {
    exists|i: int| 0 <= i < ds.len() && #[trigger] ds[i].request_id == request_id
}

/// One error for every subscriber.
pub open spec fn errors_for(ds: Seq<DownstreamView>, kind: ErrorKind) -> Seq<DeliveryView> {
    Seq::new(
        ds.len(),
        |i: int| DeliveryView { downstream: ds[i].id, event: EventView::Error(kind) },
    )
}

/// The resolved timestamp of a region for every subscriber whose scan has ended.
pub open spec fn resolved_for(ds: Seq<DownstreamView>, region_id: u64, ts: Ts) -> Seq<DeliveryView>
    decreases ds.len(),
{
    if ds.len() == 0 {
        Seq::empty()
    } else if ds.last().initialized {
        resolved_for(ds.drop_last(), region_id, ts).push(
            DeliveryView {
                downstream: ds.last().id,
                event: EventView::ResolvedTs { region_ids: seq![region_id], ts },
            },
        )
    } else {
        resolved_for(ds.drop_last(), region_id, ts)
    }
}

/// Whether `key` lies between `start` and `end`, where an empty `end`
/// stands for no upper end.
pub open spec fn in_range(start: Seq<u8>, end: Seq<u8>, key: Seq<u8>) -> bool {
    crate::bytes::lex_le(start, key) && (end.len() == 0 || crate::bytes::lex_lt(key, end))
}

/// The range that one scan must cover to serve every subscriber that still
/// scans: from the least of their first keys to the greatest of their ends.
pub open spec fn scan_hull(ds: Seq<DownstreamView>) -> Option<(Seq<u8>, Seq<u8>)>
    decreases ds.len(),
{
    if ds.len() == 0 {
        None
    } else {
        let d = ds.last();
        let rest = scan_hull(ds.drop_last());
        if d.initialized {
            rest
        } else {
            match rest {
                None => Some((d.start_key, d.end_key)),
                Some((start, end)) => Some(
                    (
                        if crate::bytes::lex_lt(d.start_key, start) { d.start_key } else { start },
                        if end.len() == 0 || d.end_key.len() == 0 {
                            Seq::empty()
                        } else if crate::bytes::lex_lt(end, d.end_key) {
                            d.end_key
                        } else {
                            end
                        },
                    ),
                ),
            }
        }
    }
}

/// The range of the hull holds every key of every subscriber that still scans.
pub proof fn lemma_scan_hull_covers(ds: Seq<DownstreamView>, i: int, key: Seq<u8>)
    requires
        0 <= i < ds.len(),
        !ds[i].initialized,
        ds[i].covers(key),
    ensures
        scan_hull(ds) is Some,
        in_range(scan_hull(ds).unwrap().0, scan_hull(ds).unwrap().1, key),
    decreases ds.len(),
{
    let d = ds.last();
    let rest = scan_hull(ds.drop_last());
    if i < ds.len() - 1 {
        assert(ds.drop_last()[i] == ds[i]);
        lemma_scan_hull_covers(ds.drop_last(), i, key);
        if !d.initialized {
            let (start, end) = rest.unwrap();
            if crate::bytes::lex_lt(d.start_key, start) && crate::bytes::lex_lt(key, d.start_key) {
                crate::bytes::lemma_lex_transitive(key, d.start_key, start);
            }
            if end.len() != 0 && d.end_key.len() != 0 && crate::bytes::lex_lt(end, d.end_key) {
                crate::bytes::lemma_lex_transitive(key, end, d.end_key);
            }
        }
    } else {
        match rest {
            None => {},
            Some((start, end)) => {
                if !crate::bytes::lex_lt(d.start_key, start) && crate::bytes::lex_lt(key, start) {
                    crate::bytes::lemma_lex_total(d.start_key, start);
                    if d.start_key != start {
                        crate::bytes::lemma_lex_transitive(key, start, d.start_key);
                    }
                }
                if end.len() != 0 && d.end_key.len() != 0 && !crate::bytes::lex_lt(end, d.end_key) {
                    crate::bytes::lemma_lex_total(end, d.end_key);
                    if end != d.end_key {
                        crate::bytes::lemma_lex_transitive(key, d.end_key, end);
                    }
                }
            },
        }
    }
}

/// The mathematical value of a `Delegate`.
pub struct DelegateView {
    pub region_id: u64,
    pub epoch: RegionEpoch,
    pub state: DelegateState,
    /// The subscribers, in the order in which they joined.
    pub downstreams: Seq<DownstreamView>,
    /// The transactions under way.
    pub ledger: LedgerView,
    /// The live changes that wait for the first scan to end.
    pub buffer: Seq<BufferedView>,
    /// The rows that wait for their subscriber's scan to end.
    pub held: Seq<DeliveryView>,
    /// Whether a subscriber has asked for previous values.
    pub read_old_value: bool,
}

/// A delegate and the cache after a step, and what the step sends out.
pub struct Step {
    pub delegate: DelegateView,
    pub cache: CacheView,
    pub out: Seq<DeliveryView>,
}

impl DelegateView {
    /// A pending delegate without subscribers.
    pub open spec fn new(region_id: u64, epoch: RegionEpoch) -> DelegateView {
        DelegateView {
            region_id,
            epoch,
            state: DelegateState::Pending,
            downstreams: Seq::empty(),
            ledger: LedgerView::empty(),
            buffer: Seq::empty(),
            held: Seq::empty(),
            read_old_value: false,
        }
    }

    /// The delegate after `d` joined. Its scan is yet to come, and it covers
    /// what is buffered by now. Once a subscriber has asked for previous
    /// values they are looked up for everyone. A stopped delegate takes none.
    pub open spec fn subscribe(self, d: DownstreamView) -> DelegateView {
        if self.state is Stopped {
            self
        } else {
            DelegateView {
                downstreams: self.downstreams.push(
                    DownstreamView { initialized: false, join_pos: self.buffer.len(), ..d },
                ),
                read_old_value: self.read_old_value || d.read_old_value,
                ..self
            }
        }
    }

    /// The delegate after subscriber `id` left: what was held for it is dropped.
    pub open spec fn unsubscribe(self, id: u64) -> DelegateView {
        DelegateView {
            downstreams: others(self.downstreams, id),
            held: select(self.held, id, false),
            ..self
        }
    }

    /// What a change does once the first scan has ended: the ledger takes
    /// it, and the row it gives goes out to the subscribers whose scan has
    /// ended and is held for those that still scan.
    pub open spec fn apply(
        self,
        m: MutationView,
        fetched: Option<Seq<u8>>,
        cache: CacheView,
        pos: Option<nat>,
    ) -> Step {
        let c = self.ledger.live(m, self.read_old_value, fetched, cache);
        match c.emitted {
            None => Step {
                delegate: DelegateView { ledger: c.ledger, ..self },
                cache: c.cache,
                out: Seq::empty(),
            },
            Some(e) => Step {
                delegate: DelegateView {
                    ledger: c.ledger,
                    held: self.held + fan_out(self.downstreams, e, pos, false),
                    ..self
                },
                cache: c.cache,
                out: fan_out(self.downstreams, e, pos, true),
            },
        }
    }

    /// What a change from the apply path does: a pending delegate buffers
    /// it, an initialized one applies it, a stopped one drops it.
    pub open spec fn on_mutation(
        self,
        m: MutationView,
        fetched: Option<Seq<u8>>,
        cache: CacheView,
    ) -> Step {
        match self.state {
            DelegateState::Pending => Step {
                delegate: DelegateView {
                    buffer: self.buffer.push(BufferedView { mutation: m, fetched }),
                    ..self
                },
                cache,
                out: Seq::empty(),
            },
            DelegateState::Initialized => self.apply(m, fetched, cache, None),
            DelegateState::Stopped(_) => Step { delegate: self, cache, out: Seq::empty() },
        }
    }

    /// What applying the buffered changes from place `i` on does, each to
    /// the subscribers that had joined when it came.
    pub open spec fn replay(self, buffer: Seq<BufferedView>, cache: CacheView, i: nat) -> Step
        decreases buffer.len() - i,
    {
        if i >= buffer.len() {
            Step { delegate: self, cache, out: Seq::empty() }
        } else {
            let first = self.apply(buffer[i as int].mutation, buffer[i as int].fetched, cache, Some(i));
            let rest = first.delegate.replay(buffer, first.cache, i + 1);
            Step { delegate: rest.delegate, cache: rest.cache, out: first.out + rest.out }
        }
    }

    /// What the end of the scan of subscriber `id` does. If it is the first
    /// scan to end, the delegate becomes initialized and the buffered
    /// changes are replayed. Then the subscriber receives what was held for
    /// it and after that the marker, and counts as initialized. Nothing
    /// happens if the delegate has stopped or no subscriber `id` is scanning.
    pub open spec fn finish_scan(self, id: u64, cache: CacheView) -> Step {
        if self.state is Stopped || scanning(self.downstreams, id) is None {
            Step { delegate: self, cache, out: Seq::empty() }
        } else {
            let replayed = if self.state is Pending {
                (DelegateView {
                    state: DelegateState::Initialized,
                    buffer: Seq::empty(),
                    ..self
                }).replay(self.buffer, cache, 0)
            } else {
                Step { delegate: self, cache, out: Seq::empty() }
            };
            let d = replayed.delegate;
            Step {
                delegate: DelegateView {
                    downstreams: mark_initialized(d.downstreams, id),
                    held: select(d.held, id, false),
                    ..d
                },
                cache: replayed.cache,
                out: replayed.out + select(d.held, id, true).push(change_for(id, Row::initialized())),
            }
        }
    }

    /// What a record found by the scan of subscriber `id` does. While the
    /// delegate is pending, a lock with data is tracked. The row that the
    /// record gives goes to the subscriber at once, if it is to receive it.
    /// Nothing happens if the delegate has stopped or no subscriber `id` is
    /// scanning.
    pub open spec fn scan_entry(self, id: u64, m: MutationView) -> (DelegateView, Seq<DeliveryView>) {
        if self.state is Stopped {
            (self, Seq::empty())
        } else {
            match scanning(self.downstreams, id) {
                None => (self, Seq::empty()),
                Some(d) => {
                    let ledger = if self.state is Pending {
                        self.ledger.scanned(m)
                    } else {
                        self.ledger
                    };
                    let out = match LedgerView::scanned_row(m, self.read_old_value, d.checkpoint_ts) {
                        Some(e) => if d.accepts(e.row.kind, e.row.key, e.source, e.raw) {
                            seq![change_for(id, e.row)]
                        } else {
                            Seq::empty()
                        },
                        None => Seq::empty(),
                    };
                    (DelegateView { ledger, ..self }, out)
                },
            }
        }
    }

    /// What the records found by the scan of subscriber `id` do, from place
    /// `i` on, in scan order.
    pub open spec fn scan(self, id: u64, entries: Seq<MutationView>, i: nat) -> (
        DelegateView,
        Seq<DeliveryView>,
    )
        decreases entries.len() - i,
    {
        if i >= entries.len() {
            (self, Seq::empty())
        } else {
            let first = self.scan_entry(id, entries[i as int]);
            let rest = first.0.scan(id, entries, i + 1);
            (rest.0, first.1 + rest.1)
        }
    }

    /// What a failure does: every subscriber receives the error, once, and
    /// the delegate lets go of them and of all it held.
    pub open spec fn stop(self, kind: ErrorKind) -> (DelegateView, Seq<DeliveryView>) {
        if self.state is Stopped {
            (self, Seq::empty())
        } else {
            (
                DelegateView {
                    state: DelegateState::Stopped(kind),
                    downstreams: Seq::empty(),
                    buffer: Seq::empty(),
                    held: Seq::empty(),
                    ..self
                },
                errors_for(self.downstreams, kind),
            )
        }
    }

    /// The storage read that the caller is to make before it hands in `m`:
    /// the key and the timestamp at which to read its previous value. One is
    /// asked for where previous values are wanted, the record gives a row
    /// that reports one, the record does not bring it along, and the cache
    /// does not hold it; a pending delegate asks whatever the cache holds,
    /// since the record is applied later.
    pub open spec fn old_value_request(self, m: MutationView, cache: CacheView) -> Option<(Seq<u8>, Ts)> {
        if !self.read_old_value || self.state is Stopped {
            None
        } else {
            match m {
                MutationView::Lock(l) => if l.op() is Some && !l.is_bare_put() && l.old_value is None
                    && (self.state is Pending || cache.get(l.key) is None) {
                    Some((l.key, l.read_ts()))
                } else {
                    None
                },
                MutationView::Write(w) => if w.op() is Some && w.old_value is None
                    && !self.ledger.resolver.is_tracked(w.start_ts, w.key) && (self.state is Pending
                    || cache.get(w.key) is None) {
                    Some((w.key, w.start_ts))
                } else {
                    None
                },
                MutationView::Raw(_) => None,
            }
        }
    }

    /// What a tick does: an initialized delegate resolves its timestamp with
    /// `min_ts` and tells every subscriber whose scan has ended.
    pub open spec fn tick(self, min_ts: Ts) -> (DelegateView, Seq<DeliveryView>) {
        if self.state is Initialized {
            let ts = self.ledger.resolver.resolve(min_ts);
            (
                DelegateView {
                    ledger: LedgerView {
                        resolver: ResolverView { resolved_ts: ts, ..self.ledger.resolver },
                        ..self.ledger
                    },
                    ..self
                },
                resolved_for(self.downstreams, self.region_id, ts),
            )
        } else {
            (self, Seq::empty())
        }
    }
}

/// Whether no two subscribers share an id.
pub open spec fn distinct_ids(ds: Seq<DownstreamView>) -> bool {
    forall|i: int, j: int| 0 <= i < j < ds.len() ==> (#[trigger] ds[i]).id != (#[trigger] ds[j]).id
}

/// Whether every subscriber's id lies below `bound`.
pub open spec fn ids_below(ds: Seq<DownstreamView>, bound: u64) -> bool {
    forall|i: int| 0 <= i < ds.len() ==> (#[trigger] ds[i]).id < bound
}

/// How many of the deliveries are for subscriber `id`.
pub open spec fn sent_to(out: Seq<DeliveryView>, id: u64) -> nat
    decreases out.len(),
{
    if out.len() == 0 {
        0
    } else {
        sent_to(out.drop_last(), id) + if out.last().downstream == id { 1nat } else { 0nat }
    }
}

/// The subscribers that stay when one leaves are subscribers that were
/// there, in their order.
pub proof fn lemma_others_keep_ids(ds: Seq<DownstreamView>, id: u64, bound: u64)
    ensures
        forall|k: int|
            0 <= k < others(ds, id).len() ==> exists|j: int|
                0 <= j < ds.len() && ds[j] == #[trigger] others(ds, id)[k],
        ids_below(ds, bound) ==> ids_below(others(ds, id), bound),
        distinct_ids(ds) ==> distinct_ids(others(ds, id)),
        forall|k: int| 0 <= k < others(ds, id).len() ==> (#[trigger] others(ds, id)[k]).id != id,
    decreases ds.len(),
{
    if ds.len() > 0 {
        let rest = ds.drop_last();
        lemma_others_keep_ids(rest, id, bound);
        let o = others(ds, id);
        let r = others(rest, id);
        assert forall|k: int| 0 <= k < o.len() implies exists|j: int|
            0 <= j < ds.len() && ds[j] == #[trigger] o[k] by {
            if k < r.len() {
                assert(o[k] == r[k]);
                let j = choose|j: int| 0 <= j < rest.len() && rest[j] == r[k];
                assert(ds[j] == o[k]);
            } else {
                assert(ds[ds.len() - 1] == o[k]);
            }
        }
        if ids_below(ds, bound) {
            assert forall|k: int| 0 <= k < o.len() implies (#[trigger] o[k]).id < bound by {
                let j = choose|j: int| 0 <= j < ds.len() && ds[j] == o[k];
                assert(ds[j].id < bound);
            }
        }
        if distinct_ids(ds) {
            assert(distinct_ids(rest)) by {
                assert forall|a: int, b: int| 0 <= a < b < rest.len() implies (#[trigger] rest[a]).id != (
                #[trigger] rest[b]).id by {
                    assert(rest[a] == ds[a]);
                    assert(rest[b] == ds[b]);
                }
            }
            assert forall|a: int, b: int| 0 <= a < b < o.len() implies (#[trigger] o[a]).id != (
            #[trigger] o[b]).id by {
                if b < r.len() {
                    assert(o[a] == r[a]);
                    assert(o[b] == r[b]);
                } else {
                    // `o[b]` is the last subscriber; `o[a]` is an earlier one.
                    assert(o[a] == r[a]);
                    let j = choose|j: int| 0 <= j < rest.len() && rest[j] == r[a];
                    assert(ds[j] == rest[j]);
                    assert(ds[j].id != ds[ds.len() - 1].id);
                }
            }
        }
    }
}

/// Among subscribers with distinct ids, a row that a subscriber is to
/// receive is sent to it once, and a row that it is not to receive is not
/// sent to it.
pub proof fn lemma_fan_out_once(
    ds: Seq<DownstreamView>,
    e: Emitted,
    pos: Option<nat>,
    initialized: bool,
    j: int,
)
    requires
        distinct_ids(ds),
        0 <= j < ds.len(),
    ensures
        sent_to(fan_out(ds, e, pos, initialized), ds[j].id) == if ds[j].initialized == initialized
            && ds[j].accepts(e.row.kind, e.row.key, e.source, e.raw) && ds[j].joined_by(pos) {
            1nat
        } else {
            0nat
        },
    decreases ds.len(),
{
    let rest = ds.drop_last();
    assert(distinct_ids(rest)) by {
        assert forall|a: int, b: int| 0 <= a < b < rest.len() implies (#[trigger] rest[a]).id != (
        #[trigger] rest[b]).id by {
            assert(rest[a] == ds[a]);
            assert(rest[b] == ds[b]);
        }
    }
    let d = ds.last();
    let taken = d.initialized == initialized && d.accepts(e.row.kind, e.row.key, e.source, e.raw)
        && d.joined_by(pos);
    let out = fan_out(ds, e, pos, initialized);
    let before = fan_out(rest, e, pos, initialized);
    if taken {
        assert(out.drop_last() =~= before);
    }
    if j < ds.len() - 1 {
        assert(rest[j] == ds[j]);
        lemma_fan_out_once(rest, e, pos, initialized, j);
        assert(ds[j].id != ds[ds.len() - 1].id);
    } else {
        lemma_fan_out_skips(rest, e, pos, initialized, d.id);
    }
}

/// A row is not sent to an id that no subscriber has.
pub proof fn lemma_fan_out_skips(
    ds: Seq<DownstreamView>,
    e: Emitted,
    pos: Option<nat>,
    initialized: bool,
    id: u64,
)
    requires
        forall|i: int| 0 <= i < ds.len() ==> (#[trigger] ds[i]).id != id,
    ensures
        sent_to(fan_out(ds, e, pos, initialized), id) == 0,
    decreases ds.len(),
{
    if ds.len() > 0 {
        let rest = ds.drop_last();
        assert forall|i: int| 0 <= i < rest.len() implies (#[trigger] rest[i]).id != id by {
            assert(rest[i] == ds[i]);
        }
        lemma_fan_out_skips(rest, e, pos, initialized, id);
        let d = ds.last();
        assert(ds[ds.len() - 1].id != id);
        let taken = d.initialized == initialized && d.accepts(e.row.kind, e.row.key, e.source, e.raw)
            && d.joined_by(pos);
        if taken {
            assert(fan_out(ds, e, pos, initialized).drop_last() =~= fan_out(rest, e, pos, initialized));
        }
    }
}

/// Whether two delegates serve the same region in the same state for the
/// same subscribers, with the same resolved timestamp.
pub open spec fn same_standing(a: DelegateView, b: DelegateView) -> bool {
    &&& a.region_id == b.region_id
    &&& a.epoch == b.epoch
    &&& a.state == b.state
    &&& a.downstreams == b.downstreams
    &&& a.buffer == b.buffer
    &&& a.read_old_value == b.read_old_value
    &&& a.ledger.resolver.resolved_ts == b.ledger.resolver.resolved_ts
}

/// The commit of a transaction reaches exactly the subscribers that its
/// prewrite reached: a subscriber that was spared the prewrite of a looped
/// transaction is spared its commit too.
pub proof fn lemma_commit_reaches_who_got_prewrite(
    ds: Seq<DownstreamView>,
    prewrite: Emitted,
    commit: Emitted,
    pos: Option<nat>,
    initialized: bool,
)
    requires
        prewrite.row.kind == crate::event::LogKind::Prewrite,
        commit.row.kind == crate::event::LogKind::Commit,
        commit.row.key == prewrite.row.key,
        commit.source == prewrite.source,
        commit.raw == prewrite.raw,
    ensures
        fan_out(ds, commit, pos, initialized).len() == fan_out(ds, prewrite, pos, initialized).len(),
        forall|i: int|
            0 <= i < fan_out(ds, commit, pos, initialized).len() ==> {
                &&& (#[trigger] fan_out(ds, commit, pos, initialized)[i]).downstream == fan_out(
                    ds,
                    prewrite,
                    pos,
                    initialized,
                )[i].downstream
                &&& fan_out(ds, commit, pos, initialized)[i].event == EventView::Change(commit.row)
            },
    decreases ds.len(),
{
    if ds.len() > 0 {
        lemma_commit_reaches_who_got_prewrite(ds.drop_last(), prewrite, commit, pos, initialized);
    }
}

/// A row goes only to subscribers whose range holds its key, that follow
/// keys of its kind and that had joined when it came.
pub proof fn lemma_fan_out_respects_ranges(
    ds: Seq<DownstreamView>,
    e: Emitted,
    pos: Option<nat>,
    initialized: bool,
    i: int,
)
    requires
        0 <= i < fan_out(ds, e, pos, initialized).len(),
    ensures
        fan_out(ds, e, pos, initialized)[i].event == EventView::Change(e.row),
        exists|j: int|
            0 <= j < ds.len() && (#[trigger] ds[j]).id == fan_out(ds, e, pos, initialized)[i].downstream
                && ds[j].covers(e.row.key) && ds[j].accepts(e.row.kind, e.row.key, e.source, e.raw)
                && ds[j].joined_by(pos) && ds[j].initialized == initialized,
    decreases ds.len(),
{
    let rest = fan_out(ds.drop_last(), e, pos, initialized);
    if i < rest.len() {
        lemma_fan_out_respects_ranges(ds.drop_last(), e, pos, initialized, i);
        let j = choose|j: int|
            0 <= j < ds.drop_last().len() && (#[trigger] ds.drop_last()[j]).id == rest[i].downstream
                && ds.drop_last()[j].covers(e.row.key) && ds.drop_last()[j].accepts(
                e.row.kind,
                e.row.key,
                e.source,
                e.raw,
            ) && ds.drop_last()[j].joined_by(pos) && ds.drop_last()[j].initialized == initialized;
        assert(ds[j] == ds.drop_last()[j]);
    } else {
        assert(ds[ds.len() - 1] == ds.last());
    }
}

/// A subscriber whose range holds the key of a row, that follows keys of
/// its kind, does not filter it and had joined when it came, is sent the row.
pub proof fn lemma_fan_out_reaches_all(
    ds: Seq<DownstreamView>,
    e: Emitted,
    pos: Option<nat>,
    j: int,
)
    requires
        0 <= j < ds.len(),
        ds[j].accepts(e.row.kind, e.row.key, e.source, e.raw),
        ds[j].joined_by(pos),
    ensures
        exists|i: int|
            0 <= i < fan_out(ds, e, pos, ds[j].initialized).len() && (#[trigger] fan_out(
                ds,
                e,
                pos,
                ds[j].initialized,
            )[i]) == change_for(ds[j].id, e.row),
    decreases ds.len(),
{
    let init = ds[j].initialized;
    let rest = fan_out(ds.drop_last(), e, pos, init);
    let all = fan_out(ds, e, pos, init);
    if j < ds.len() - 1 {
        assert(ds.drop_last()[j] == ds[j]);
        lemma_fan_out_reaches_all(ds.drop_last(), e, pos, j);
        let i = choose|i: int| 0 <= i < rest.len() && (#[trigger] rest[i]) == change_for(ds[j].id, e.row);
        assert(all[i] == rest[i]);
    } else {
        assert(all[all.len() - 1] == change_for(ds[j].id, e.row));
    }
}

/// A rollback reaches every subscriber of the key's kind whose range holds
/// the key, whatever the transaction's source.
pub proof fn lemma_rollback_is_never_filtered(d: DownstreamView, key: Seq<u8>, source: u64, raw: bool)
    ensures
        d.accepts(crate::event::LogKind::Rollback, key, source, raw) == d.accepts(
            crate::event::LogKind::Rollback,
            key,
            0,
            raw,
        ),
{
}

/// Applying a change leaves the delegate's standing as it was.
pub proof fn lemma_apply_keeps_standing(
    d: DelegateView,
    m: MutationView,
    fetched: Option<Seq<u8>>,
    cache: CacheView,
    pos: Option<nat>,
)
    ensures
        same_standing(d.apply(m, fetched, cache, pos).delegate, d),
{
}

/// Replaying buffered changes leaves the delegate's standing as it was.
pub proof fn lemma_replay_keeps_standing(
    d: DelegateView,
    buffer: Seq<BufferedView>,
    cache: CacheView,
    i: nat,
)
    ensures
        same_standing(d.replay(buffer, cache, i).delegate, d),
    decreases buffer.len() - i,
{
    if i < buffer.len() {
        let first = d.apply(buffer[i as int].mutation, buffer[i as int].fetched, cache, Some(i));
        lemma_apply_keeps_standing(d, buffer[i as int].mutation, buffer[i as int].fetched, cache, Some(i));
        lemma_replay_keeps_standing(first.delegate, buffer, first.cache, i + 1);
    }
}

/// Scanned records leave the delegate's standing as it was.
pub proof fn lemma_scan_keeps_standing(d: DelegateView, id: u64, entries: Seq<MutationView>, i: nat)
    ensures
        same_standing(d.scan(id, entries, i).0, d),
        d.scan(id, entries, i).0.held == d.held,
    decreases entries.len() - i,
{
    if i < entries.len() {
        let first = d.scan_entry(id, entries[i as int]);
        lemma_scan_keeps_standing(first.0, id, entries, i + 1);
    }
}

/// Whatever a delegate is handed, its resolved timestamp never goes back:
/// changes, scanned records and the end of a scan leave it as it is, and a
/// tick moves it forward only.
pub proof fn lemma_resolved_ts_never_goes_back(
    d: DelegateView,
    m: MutationView,
    fetched: Option<Seq<u8>>,
    cache: CacheView,
    id: u64,
    entries: Seq<MutationView>,
    min_ts: Ts,
)
    ensures
        d.on_mutation(m, fetched, cache).delegate.ledger.resolver.resolved_ts
            == d.ledger.resolver.resolved_ts,
        d.scan(id, entries, 0).0.ledger.resolver.resolved_ts == d.ledger.resolver.resolved_ts,
        d.finish_scan(id, cache).delegate.ledger.resolver.resolved_ts == d.ledger.resolver.resolved_ts,
        d.tick(min_ts).0.ledger.resolver.resolved_ts >= d.ledger.resolver.resolved_ts,
{
    lemma_scan_keeps_standing(d, id, entries, 0);
    lemma_replay_keeps_standing(
        DelegateView { state: DelegateState::Initialized, buffer: Seq::empty(), ..d },
        d.buffer,
        cache,
        0,
    );
    crate::resolver::lemma_resolve_is_safe(d.ledger.resolver, min_ts);
}

/// After a tick of an initialized delegate whose resolved timestamp lay
/// below every tracked lock, durable or held in memory, the timestamp it
/// reports still lies below every tracked lock.
pub proof fn lemma_tick_stays_below_locks(d: DelegateView, min_ts: Ts)
    requires
        d.ledger.resolver.below_all_locks(),
    ensures
        d.tick(min_ts).0.ledger.resolver.below_all_locks(),
        d.tick(min_ts).0.ledger.resolver.locks == d.ledger.resolver.locks,
{
    crate::resolver::lemma_resolve_is_safe(d.ledger.resolver, min_ts);
}

/// In an initialized delegate whose subscribers have ids of their own, a
/// subscriber whose scan has ended and that is to receive a prewrite is
/// sent the prewrite once when it comes, and the commit once when that
/// comes, with the key, the value and the change of the prewrite.
pub proof fn lemma_pair_is_delivered_once(
    d: DelegateView,
    j: int,
    l: crate::record::LockRecordView,
    w: crate::record::WriteRecordView,
    fetched: Option<Seq<u8>>,
    fetched_again: Option<Seq<u8>>,
    cache: CacheView,
)
    requires
        d.state is Initialized,
        distinct_ids(d.downstreams),
        0 <= j < d.downstreams.len(),
        d.downstreams[j].initialized,
        l.op() is Some,
        !l.is_bare_put(),
        w.op() is Some,
        w.key == l.key,
        w.start_ts == l.start_ts,
        d.downstreams[j].accepts(crate::event::LogKind::Prewrite, l.key, l.txn_source, false),
    ensures
        ({
            let first = d.on_mutation(MutationView::Lock(l), fetched, cache);
            let second = first.delegate.on_mutation(MutationView::Write(w), fetched_again, first.cache);
            let id = d.downstreams[j].id;
            &&& sent_to(first.out, id) == 1
            &&& sent_to(second.out, id) == 1
            &&& exists|row: Row|
                {
                    &&& #[trigger] first.out.contains(change_for(id, row))
                    &&& row.kind == crate::event::LogKind::Prewrite
                    &&& row.key == l.key
                    &&& row.value == l.value
                    &&& row.start_ts == l.start_ts
                    &&& second.out.contains(
                        change_for(
                            id,
                            Row {
                                kind: crate::event::LogKind::Commit,
                                old_value: Seq::empty(),
                                commit_ts: w.commit_ts,
                                ..row
                            },
                        ),
                    )
                }
        }),
{
    let ds = d.downstreams;
    let first = d.on_mutation(MutationView::Lock(l), fetched, cache);
    let c1 = d.ledger.live(MutationView::Lock(l), d.read_old_value, fetched, cache);
    let e1 = c1.emitted.unwrap();
    crate::classify::lemma_prewrite_then_commit(
        d.ledger,
        l,
        w,
        d.read_old_value,
        fetched,
        fetched_again,
        cache,
    );
    let c2 = c1.ledger.live(MutationView::Write(w), d.read_old_value, fetched_again, c1.cache);
    let e2 = c2.emitted.unwrap();
    let second = first.delegate.on_mutation(MutationView::Write(w), fetched_again, first.cache);
    assert(first.out == fan_out(ds, e1, None, true));
    assert(second.out == fan_out(ds, e2, None, true));
    lemma_fan_out_once(ds, e1, None, true, j);
    lemma_fan_out_once(ds, e2, None, true, j);
    lemma_fan_out_reaches_all(ds, e1, None, j);
    lemma_fan_out_reaches_all(ds, e2, None, j);
    let id = ds[j].id;
    let i1 = choose|i: int|
        0 <= i < fan_out(ds, e1, None, true).len() && (#[trigger] fan_out(ds, e1, None, true)[i])
            == change_for(id, e1.row);
    let i2 = choose|i: int|
        0 <= i < fan_out(ds, e2, None, true).len() && (#[trigger] fan_out(ds, e2, None, true)[i])
            == change_for(id, e2.row);
    assert(first.out[i1] == change_for(id, e1.row));
    assert(second.out[i2] == change_for(id, e2.row));
    assert(e2.row == (Row {
        kind: crate::event::LogKind::Commit,
        old_value: Seq::empty(),
        commit_ts: w.commit_ts,
        ..e1.row
    }));
    assert(first.out.contains(change_for(id, e1.row)));
}

/// No subscriber `id` is scanning once its scan has ended.
pub proof fn lemma_marked_is_not_scanning(ds: Seq<DownstreamView>, id: u64)
    ensures
        scanning(mark_initialized(ds, id), id) is None,
    decreases ds.len(),
{
    if ds.len() > 0 {
        assert(mark_initialized(ds, id).drop_last() =~= mark_initialized(ds.drop_last(), id));
        lemma_marked_is_not_scanning(ds.drop_last(), id);
    }
}

/// The marker is sent once: the end of a scan makes the delegate
/// initialized and sends the marker last, and a second end of the same scan
/// sends nothing and changes nothing.
pub proof fn lemma_marker_is_sent_once(d: DelegateView, id: u64, cache: CacheView)
    requires
        !(d.state is Stopped),
        scanning(d.downstreams, id) is Some,
    ensures
        ({
            let first = d.finish_scan(id, cache);
            let second = first.delegate.finish_scan(id, first.cache);
            &&& first.delegate.state == DelegateState::Initialized
            &&& first.out.len() > 0
            &&& first.out.last() == change_for(id, Row::initialized())
            &&& second.out.len() == 0
            &&& second.delegate == first.delegate
            &&& second.cache == first.cache
        }),
{
    let start = DelegateView { state: DelegateState::Initialized, buffer: Seq::empty(), ..d };
    lemma_replay_keeps_standing(start, d.buffer, cache, 0);
    let replayed = if d.state is Pending {
        start.replay(d.buffer, cache, 0)
    } else {
        Step { delegate: d, cache, out: Seq::empty() }
    };
    let first = d.finish_scan(id, cache);
    assert(replayed.delegate.downstreams == d.downstreams);
    assert(first.delegate.downstreams == mark_initialized(d.downstreams, id));
    lemma_marked_is_not_scanning(d.downstreams, id);
    assert(first.delegate.state == DelegateState::Initialized);
}

/// A failure sends one error to every subscriber, leaves the delegate
/// without subscribers, and a second failure sends nothing.
pub proof fn lemma_stop_once(d: DelegateView, kind: ErrorKind, again: ErrorKind)
    requires
        !(d.state is Stopped),
    ensures
        d.stop(kind).1.len() == d.downstreams.len(),
        forall|i: int|
            0 <= i < d.downstreams.len() ==> #[trigger] d.stop(kind).1[i] == (DeliveryView {
                downstream: d.downstreams[i].id,
                event: EventView::Error(kind),
            }),
        d.stop(kind).0.downstreams.len() == 0,
        d.stop(kind).0.stop(again).1.len() == 0,
        d.stop(kind).0.stop(again).0 == d.stop(kind).0,
{
}

/// A read of a key's previous value that the caller is to make.
#[derive(Debug)]
pub struct ReadRequest {
    pub key: Vec<u8>,
    pub read_ts: Ts,
}

/// The view of an optional read request.
pub open spec fn request_view(r: Option<ReadRequest>) -> Option<(Seq<u8>, Ts)> {
    match r {
        Some(r) => Some((r.key@, r.read_ts)),
        None => None,
    }
}

/// A subscriber that scans is found from any longer list that starts alike.
proof fn lemma_scanning_prefix(ds: Seq<DownstreamView>, id: u64, k: int)
    requires
        0 <= k <= ds.len(),
        scanning(ds.take(k), id) is Some,
    ensures
        scanning(ds, id) == scanning(ds.take(k), id),
    decreases ds.len(),
{
    if k < ds.len() {
        assert(ds.drop_last().take(k) =~= ds.take(k));
        lemma_scanning_prefix(ds.drop_last(), id, k);
    } else {
        assert(ds.take(k) =~= ds);
    }
}

/// The state of one subscribed region.
#[derive(Debug)]
pub struct Delegate {
    region_id: u64,
    epoch: RegionEpoch,
    state: DelegateState,
    downstreams: Vec<Downstream>,
    ledger: Ledger,
    buffer: Vec<Buffered>,
    held: Vec<Delivery>,
    read_old_value: bool,
}

impl View for Delegate {
    type V = DelegateView;

    closed spec fn view(&self) -> DelegateView {
        DelegateView {
            region_id: self.region_id,
            epoch: self.epoch,
            state: self.state,
            downstreams: views(self.downstreams@),
            ledger: self.ledger@,
            buffer: views(self.buffer@),
            held: views(self.held@),
            read_old_value: self.read_old_value,
        }
    }
}

impl Delegate {
    /// A pending delegate without subscribers.
    pub fn new(region_id: u64, epoch: RegionEpoch) -> (d: Delegate)
        ensures
            d@ == DelegateView::new(region_id, epoch),
    {
        let d = Delegate {
            region_id,
            epoch,
            state: DelegateState::Pending,
            downstreams: Vec::new(),
            ledger: Ledger::new(),
            buffer: Vec::new(),
            held: Vec::new(),
            read_old_value: false,
        };
        proof {
            assert(d@.downstreams =~= Seq::empty());
            assert(d@.buffer =~= Seq::empty());
            assert(d@.held =~= Seq::empty());
        }
        d
    }

    /// The region the delegate serves.
    pub fn region_id(&self) -> (r: u64)
        ensures
            r == self@.region_id,
    {
        self.region_id
    }

    /// The epoch the region had when the delegate was made.
    pub fn epoch(&self) -> (r: RegionEpoch)
        ensures
            r == self@.epoch,
    {
        self.epoch
    }

    /// Where the delegate stands.
    pub fn state(&self) -> (r: DelegateState)
        ensures
            r == self@.state,
    {
        self.state
    }

    /// The subscribers, in the order in which they joined.
    pub fn downstreams(&self) -> (r: &Vec<Downstream>)
        ensures
            views(r@) == self@.downstreams,
    {
        &self.downstreams
    }

    /// The region's resolved timestamp.
    pub fn resolved_ts(&self) -> (r: Ts)
        ensures
            r == self@.ledger.resolver.resolved_ts,
    {
        self.ledger.resolver().resolved_ts()
    }

    /// The transactions under way in the region.
    pub fn ledger(&self) -> (r: &Ledger)
        ensures
            r@ == self@.ledger,
    {
        &self.ledger
    }

    /// Whether a subscriber is registered under `request_id`.
    pub fn has_request(&self, request_id: u64) -> (r: bool)
        ensures
            r == has_request(self@.downstreams, request_id),
    {
        let mut i: usize = 0;
        while i < self.downstreams.len()
            invariant
                i <= self.downstreams.len(),
                forall|j: int| 0 <= j < i ==> self@.downstreams[j].request_id != request_id,
            decreases self.downstreams.len() - i,
        {
            if self.downstreams[i].request_id == request_id {
                assert(self@.downstreams[i as int].request_id == request_id);
                return true;
            }
            i = i + 1;
        }
        false
    }

    /// Attaches a subscriber, whose scan is yet to come. Returns whether it
    /// was attached: a stopped delegate takes none.
    pub fn subscribe(&mut self, d: Downstream) -> (attached: bool)
        ensures
            final(self)@ == old(self)@.subscribe(d@),
            attached == !(old(self)@.state is Stopped),
    {
        match self.state {
            DelegateState::Stopped(_) => false,
            _ => {
                let mut d = d;
                d.initialized = false;
                d.join_pos = self.buffer.len();
                if d.read_old_value {
                    self.read_old_value = true;
                }
                proof {
                    lemma_views_push(self.downstreams@, d);
                }
                self.downstreams.push(d);
                true
            },
        }
    }

    /// Detaches subscriber `id` and drops what was held for it. Returns how
    /// many subscribers are left.
    pub fn unsubscribe(&mut self, id: u64) -> (left: usize)
        ensures
            final(self)@ == old(self)@.unsubscribe(id),
            left == final(self)@.downstreams.len(),
    {
        let ghost before = self@.downstreams;
        let mut i: usize = self.downstreams.len();
        proof {
            assert(before.take(before.len() as int) =~= before);
        }
        while i > 0
            invariant
                i <= self.downstreams.len(),
                before.len() >= i,
                self.region_id == old(self).region_id,
                self.epoch == old(self).epoch,
                self.state == old(self).state,
                self.ledger == old(self).ledger,
                self.buffer == old(self).buffer,
                self.held == old(self).held,
                self.read_old_value == old(self).read_old_value,
                views(self.downstreams@).take(i as int) == before.take(i as int),
                others(before, id) == others(before.take(i as int), id) + views(self.downstreams@).skip(
                    i as int,
                ),
            decreases i,
        {
            i = i - 1;
            let ghost cur = views(self.downstreams@);
            proof {
                assert(before.take(i + 1).drop_last() =~= before.take(i as int));
                assert(before.take(i + 1).last() == cur[i as int]);
                assert(cur.take(i as int) =~= cur.take(i + 1).take(i as int));
                assert(before.take(i as int) =~= before.take(i + 1).take(i as int));
            }
            if self.downstreams[i].id == id {
                self.downstreams.remove(i);
                proof {
                    assert(views(self.downstreams@) =~= cur.remove(i as int));
                    assert(views(self.downstreams@).take(i as int) =~= cur.take(i as int));
                    assert(views(self.downstreams@).skip(i as int) =~= cur.skip(i + 1));
                }
            } else {
                proof {
                    assert(others(before.take(i as int), id).push(cur[i as int]) + cur.skip(i + 1)
                        =~= others(before.take(i as int), id) + cur.skip(i as int));
                }
            }
        }
        proof {
            assert(before.take(0) =~= Seq::empty());
            assert(Seq::<DownstreamView>::empty() + views(self.downstreams@).skip(0) =~= views(
                self.downstreams@,
            ));
        }
        let mut dropped: Vec<Delivery> = Vec::new();
        self.take_held(id, &mut dropped);
        self.downstreams.len()
    }

    /// Moves what is held for subscriber `id` to the end of `out`.
    fn take_held(&mut self, id: u64, out: &mut Vec<Delivery>)
        ensures
            final(self)@ == (DelegateView { held: select(old(self)@.held, id, false), ..old(self)@ }),
            views(final(out)@) == views(old(out)@) + select(old(self)@.held, id, true),
    {
        let ghost all = views(self.held@);
        let ghost out_before = views(out@);
        let mut taken: Vec<Delivery> = Vec::new();
        std::mem::swap(&mut self.held, &mut taken);
        let mut rest = reversed(taken);
        let ghost n = all.len();
        let mut i: usize = 0;
        proof {
            assert(views(rest@).reverse() =~= all);
            assert(views(rest@).reverse().len() == rest.len());
            assert(all.skip(0) =~= all);
            assert(all.take(0) =~= Seq::empty());
            assert(views(self.held@) =~= Seq::empty());
            assert(out_before + Seq::<DeliveryView>::empty() =~= out_before);
        }
        while rest.len() > 0
            invariant
                n == all.len(),
                n <= usize::MAX,
                i + rest.len() == n,
                self.region_id == old(self).region_id,
                self.epoch == old(self).epoch,
                self.state == old(self).state,
                self.ledger == old(self).ledger,
                self.buffer == old(self).buffer,
                self.downstreams == old(self).downstreams,
                self.read_old_value == old(self).read_old_value,
                views(rest@).reverse() == all.skip(i as int),
                views(self.held@) == select(all.take(i as int), id, false),
                views(out@) == out_before + select(all.take(i as int), id, true),
            decreases rest.len(),
        {
            let ghost before_rest = views(rest@);
            let item = rest.pop().unwrap();
            proof {
                assert(views(rest@) =~= before_rest.drop_last());
                assert(before_rest.reverse()[0] == item@);
                assert(all[i as int] == item@);
                assert(before_rest.drop_last().reverse() =~= before_rest.reverse().drop_first());
                assert(views(rest@).reverse() =~= all.skip(i + 1));
                assert(all.take(i + 1).drop_last() =~= all.take(i as int));
                assert(all.take(i + 1).last() == item@);
            }
            if item.downstream == id {
                proof {
                    lemma_views_push(out@, item);
                    assert((out_before + select(all.take(i as int), id, true)).push(item@) =~= out_before
                        + select(all.take(i as int), id, true).push(item@));
                }
                out.push(item);
            } else {
                proof {
                    lemma_views_push(self.held@, item);
                }
                self.held.push(item);
            }
            i = i + 1;
        }
        proof {
            assert(all.take(n as int) =~= all);
        }
    }

    /// Hands a row to the subscribers that are to receive it: to `out` for
    /// those whose scan has ended, to the held rows for those that still scan.
    fn fan_out(&mut self, e: &Emission, pos: Option<usize>, out: &mut Vec<Delivery>)
        ensures
            final(self)@ == (DelegateView {
                held: old(self)@.held + fan_out(old(self)@.downstreams, e@, pos_view(pos), false),
                ..old(self)@
            }),
            views(final(out)@) == views(old(out)@) + fan_out(
                old(self)@.downstreams,
                e@,
                pos_view(pos),
                true,
            ),
    {
        let ghost ds = self@.downstreams;
        let ghost held_before = self@.held;
        let ghost out_before = views(out@);
        let mut i: usize = 0;
        proof {
            assert(ds.take(0) =~= Seq::empty());
            assert(held_before + Seq::<DeliveryView>::empty() =~= held_before);
            assert(out_before + Seq::<DeliveryView>::empty() =~= out_before);
        }
        while i < self.downstreams.len()
            invariant
                i <= self.downstreams.len(),
                self.region_id == old(self).region_id,
                self.epoch == old(self).epoch,
                self.state == old(self).state,
                self.ledger == old(self).ledger,
                self.buffer == old(self).buffer,
                self.downstreams == old(self).downstreams,
                self.read_old_value == old(self).read_old_value,
                ds == views(self.downstreams@),
                views(self.held@) == held_before + fan_out(ds.take(i as int), e@, pos_view(pos), false),
                views(out@) == out_before + fan_out(ds.take(i as int), e@, pos_view(pos), true),
            decreases self.downstreams.len() - i,
        {
            let d = &self.downstreams[i];
            proof {
                assert(ds.take(i + 1).drop_last() =~= ds.take(i as int));
                assert(ds.take(i + 1).last() == d@);
            }
            if d.accepts(e.row.kind, e.row.key.as_slice(), e.source, e.raw) && d.joined_by(pos) {
                let item = Delivery { downstream: d.id, event: Event::Change(e.row.duplicate()) };
                if d.initialized {
                    proof {
                        lemma_views_push(out@, item);
                        assert((out_before + fan_out(ds.take(i as int), e@, pos_view(pos), true)).push(
                            item@,
                        ) =~= out_before + fan_out(ds.take(i as int), e@, pos_view(pos), true).push(
                            item@,
                        ));
                    }
                    out.push(item);
                } else {
                    proof {
                        lemma_views_push(self.held@, item);
                        assert((held_before + fan_out(ds.take(i as int), e@, pos_view(pos), false)).push(
                            item@,
                        ) =~= held_before + fan_out(ds.take(i as int), e@, pos_view(pos), false).push(
                            item@,
                        ));
                    }
                    self.held.push(item);
                }
            }
            i = i + 1;
        }
        proof {
            assert(ds.take(ds.len() as int) =~= ds);
        }
    }

    /// Applies a change once the first scan has ended.
    fn apply(
        &mut self,
        m: &Mutation,
        fetched: Option<Vec<u8>>,
        cache: &mut OldValueCache,
        pos: Option<usize>,
        out: &mut Vec<Delivery>,
    )
        ensures
            final(self)@ == old(self)@.apply(m@, opt_view(fetched), old(cache)@, pos_view(pos)).delegate,
            final(cache)@ == old(self)@.apply(m@, opt_view(fetched), old(cache)@, pos_view(pos)).cache,
            views(final(out)@) == views(old(out)@) + old(self)@.apply(
                m@,
                opt_view(fetched),
                old(cache)@,
                pos_view(pos),
            ).out,
            old(cache)@.bounded() ==> final(cache)@.bounded(),
    {
        let emitted = self.ledger.classify(m, self.read_old_value, fetched, cache);
        match emitted {
            None => {
                proof {
                    assert(views(out@) + Seq::<DeliveryView>::empty() =~= views(out@));
                }
            },
            Some(e) => {
                self.fan_out(&e, pos, out);
            },
        }
    }

    /// The range that one scan must cover to serve every subscriber that
    /// still scans, as its first key and its end; none where none scans.
    pub fn scan_range(&self) -> (r: Option<(Vec<u8>, Vec<u8>)>)
        ensures
            match r {
                Some((start, end)) => scan_hull(self@.downstreams) == Some((start@, end@)),
                None => scan_hull(self@.downstreams) is None,
            },
    {
        let ghost ds = self@.downstreams;
        let mut hull: Option<(Vec<u8>, Vec<u8>)> = None;
        let mut i: usize = 0;
        proof {
            assert(ds.take(0) =~= Seq::empty());
        }
        while i < self.downstreams.len()
            invariant
                i <= self.downstreams.len(),
                ds == views(self.downstreams@),
                match hull {
                    Some((start, end)) => scan_hull(ds.take(i as int)) == Some((start@, end@)),
                    None => scan_hull(ds.take(i as int)) is None,
                },
            decreases self.downstreams.len() - i,
        {
            proof {
                assert(ds.take(i + 1).drop_last() =~= ds.take(i as int));
                assert(ds.take(i + 1).last() == ds[i as int]);
            }
            let d = &self.downstreams[i];
            if !d.initialized {
                hull = match hull {
                    None => Some(
                        (
                            crate::bytes::copy_bytes(d.start_key.as_slice()),
                            crate::bytes::copy_bytes(d.end_key.as_slice()),
                        ),
                    ),
                    Some((start, end)) => {
                        let new_start = if crate::bytes::bytes_lt(
                            d.start_key.as_slice(),
                            start.as_slice(),
                        ) {
                            crate::bytes::copy_bytes(d.start_key.as_slice())
                        } else {
                            start
                        };
                        let new_end = if end.len() == 0 || d.end_key.len() == 0 {
                            Vec::new()
                        } else if crate::bytes::bytes_lt(end.as_slice(), d.end_key.as_slice()) {
                            crate::bytes::copy_bytes(d.end_key.as_slice())
                        } else {
                            end
                        };
                        Some((new_start, new_end))
                    },
                };
            }
            i = i + 1;
        }
        proof {
            assert(ds.take(ds.len() as int) =~= ds);
        }
        hull
    }

    /// Takes a change from the apply path, with what the caller read from
    /// storage for its previous value, if it did. Returns what to send out.
    pub fn on_mutation(
        &mut self,
        m: Mutation,
        fetched: Option<Vec<u8>>,
        cache: &mut OldValueCache,
    ) -> (out: Vec<Delivery>)
        ensures
            (Step { delegate: final(self)@, cache: final(cache)@, out: views(out@) })
                == old(self)@.on_mutation(m@, opt_view(fetched), old(cache)@),
            old(cache)@.bounded() ==> final(cache)@.bounded(),
    {
        let mut out: Vec<Delivery> = Vec::new();
        proof {
            assert(views(out@) =~= Seq::empty());
        }
        match self.state {
            DelegateState::Pending => {
                let b = Buffered { mutation: m, fetched };
                proof {
                    lemma_views_push(self.buffer@, b);
                }
                self.buffer.push(b);
            },
            DelegateState::Initialized => {
                self.apply(&m, fetched, cache, None, &mut out);
                proof {
                    let s = old(self)@.apply(m@, opt_view(fetched), old(cache)@, None);
                    assert(Seq::<DeliveryView>::empty() + s.out =~= s.out);
                }
            },
            DelegateState::Stopped(_) => {},
        }
        out
    }

    /// Applies the buffered changes in the order in which they came.
    fn replay(&mut self, buffer: &Vec<Buffered>, cache: &mut OldValueCache, out: &mut Vec<Delivery>)
        ensures
            final(self)@ == old(self)@.replay(views(buffer@), old(cache)@, 0).delegate,
            final(cache)@ == old(self)@.replay(views(buffer@), old(cache)@, 0).cache,
            views(final(out)@) == views(old(out)@) + old(self)@.replay(
                views(buffer@),
                old(cache)@,
                0,
            ).out,
            old(cache)@.bounded() ==> final(cache)@.bounded(),
    {
        let ghost all = views(buffer@);
        let ghost whole = self@.replay(all, cache@, 0);
        let ghost out_before = views(out@);
        let mut i: usize = 0;
        while i < buffer.len()
            invariant
                i <= buffer.len(),
                all == views(buffer@),
                self@.replay(all, cache@, i as nat).delegate == whole.delegate,
                self@.replay(all, cache@, i as nat).cache == whole.cache,
                views(out@) + self@.replay(all, cache@, i as nat).out == out_before + whole.out,
                old(cache)@.bounded() ==> cache@.bounded(),
            decreases buffer.len() - i,
        {
            let ghost before = self@;
            let ghost cache_before = cache@;
            let ghost sent = views(out@);
            let b = &buffer[i];
            let fetched = crate::record::copy_opt_bytes(&b.fetched);
            self.apply(&b.mutation, fetched, cache, Some(i), out);
            proof {
                let first = before.apply(all[i as int].mutation, all[i as int].fetched, cache_before, Some(i as nat));
                let rest = first.delegate.replay(all, first.cache, (i + 1) as nat);
                assert(before.replay(all, cache_before, i as nat).out == first.out + rest.out);
                assert((sent + first.out) + rest.out =~= sent + (first.out + rest.out));
            }
            i = i + 1;
        }
        proof {
            assert(views(out@) + Seq::<DeliveryView>::empty() =~= views(out@));
        }
    }

    /// The place of the first subscriber with `id` whose scan has not ended.
    fn find_scanning(&self, id: u64) -> (at: Option<usize>)
        ensures
            match at {
                Some(i) => i < self@.downstreams.len() && scanning(self@.downstreams, id) == Some(
                    self@.downstreams[i as int],
                ) && self@.downstreams[i as int].id == id,
                None => scanning(self@.downstreams, id) is None,
            },
    {
        let ghost ds = self@.downstreams;
        let mut i: usize = 0;
        proof {
            assert(ds.take(0) =~= Seq::empty());
        }
        while i < self.downstreams.len()
            invariant
                i <= self.downstreams.len(),
                ds == views(self.downstreams@),
                scanning(ds.take(i as int), id) is None,
            decreases self.downstreams.len() - i,
        {
            proof {
                assert(ds.take(i + 1).drop_last() =~= ds.take(i as int));
                assert(ds.take(i + 1).last() == ds[i as int]);
            }
            if self.downstreams[i].id == id && !self.downstreams[i].initialized {
                proof {
                    lemma_scanning_prefix(ds, id, i + 1);
                }
                return Some(i);
            }
            i = i + 1;
        }
        proof {
            assert(ds.take(ds.len() as int) =~= ds);
        }
        None
    }

    /// Marks the scan of every subscriber `id` as ended.
    fn mark_initialized(&mut self, id: u64)
        ensures
            final(self)@ == (DelegateView {
                downstreams: mark_initialized(old(self)@.downstreams, id),
                ..old(self)@
            }),
    {
        let ghost ds = self@.downstreams;
        let mut i: usize = 0;
        while i < self.downstreams.len()
            invariant
                i <= self.downstreams.len(),
                self.region_id == old(self).region_id,
                self.epoch == old(self).epoch,
                self.state == old(self).state,
                self.ledger == old(self).ledger,
                self.buffer == old(self).buffer,
                self.held == old(self).held,
                self.read_old_value == old(self).read_old_value,
                views(self.downstreams@).len() == ds.len(),
                forall|j: int| 0 <= j < i ==> views(self.downstreams@)[j] == mark_initialized(ds, id)[j],
                forall|j: int| i <= j < ds.len() ==> views(self.downstreams@)[j] == ds[j],
            decreases self.downstreams.len() - i,
        {
            if self.downstreams[i].id == id {
                let mut d = self.downstreams.remove(i);
                d.initialized = true;
                self.downstreams.insert(i, d);
            }
            i = i + 1;
        }
        proof {
            assert(views(self.downstreams@) =~= mark_initialized(ds, id));
        }
    }

    /// Ends the scan of subscriber `id`. Returns what to send out: if this
    /// is the first scan to end, what the buffered changes give; then what
    /// was held for the subscriber; then the marker.
    pub fn finish_scan(&mut self, id: u64, cache: &mut OldValueCache) -> (out: Vec<Delivery>)
        ensures
            (Step { delegate: final(self)@, cache: final(cache)@, out: views(out@) })
                == old(self)@.finish_scan(id, old(cache)@),
            old(cache)@.bounded() ==> final(cache)@.bounded(),
    {
        let mut out: Vec<Delivery> = Vec::new();
        proof {
            assert(views(out@) =~= Seq::empty());
        }
        match self.state {
            DelegateState::Stopped(_) => {
                return out;
            },
            _ => {},
        }
        if self.find_scanning(id).is_none() {
            return out;
        }
        match self.state {
            DelegateState::Pending => {
                self.state = DelegateState::Initialized;
                let mut buffer: Vec<Buffered> = Vec::new();
                std::mem::swap(&mut self.buffer, &mut buffer);
                proof {
                    assert(views(self.buffer@) =~= Seq::empty());
                }
                self.replay(&buffer, cache, &mut out);
            },
            _ => {},
        }
        let ghost replayed = views(out@);
        let ghost d = self@;
        self.take_held(id, &mut out);
        self.mark_initialized(id);
        let marker = Delivery { downstream: id, event: Event::Change(DataChange::initialized()) };
        proof {
            lemma_views_push(out@, marker);
            assert((replayed + select(d.held, id, true)).push(marker@) =~= replayed + select(
                d.held,
                id,
                true,
            ).push(marker@));
            assert(Seq::<DeliveryView>::empty() + replayed =~= replayed);
        }
        out.push(marker);
        out
    }

    /// Takes one record found by the scan of subscriber `id`.
    fn scan_entry(&mut self, id: u64, m: &Mutation, out: &mut Vec<Delivery>)
        ensures
            final(self)@ == old(self)@.scan_entry(id, m@).0,
            views(final(out)@) == views(old(out)@) + old(self)@.scan_entry(id, m@).1,
    {
        proof {
            assert(views(out@) + Seq::<DeliveryView>::empty() =~= views(out@));
        }
        match self.state {
            DelegateState::Stopped(_) => {
                return ;
            },
            _ => {},
        }
        match self.find_scanning(id) {
            None => {},
            Some(i) => {
                match self.state {
                    DelegateState::Pending => {
                        self.ledger.note_scanned(m);
                    },
                    _ => {},
                }
                let d = &self.downstreams[i];
                match Ledger::scanned_row(m, self.read_old_value, d.checkpoint_ts) {
                    Some(e) => {
                        if d.accepts(e.row.kind, e.row.key.as_slice(), e.source, e.raw) {
                            let item = Delivery { downstream: id, event: Event::Change(e.row) };
                            proof {
                                lemma_views_push(out@, item);
                                assert(views(out@).push(item@) =~= views(out@) + seq![item@]);
                            }
                            out.push(item);
                        }
                    },
                    None => {},
                }
            },
        }
    }

    /// Takes records found by the scan of subscriber `id`, in scan order.
    /// Returns the rows to send to the subscriber.
    pub fn on_scan(&mut self, id: u64, entries: &Vec<Mutation>) -> (out: Vec<Delivery>)
        ensures
            (final(self)@, views(out@)) == old(self)@.scan(id, views(entries@), 0),
    {
        let mut out: Vec<Delivery> = Vec::new();
        let ghost all = views(entries@);
        let ghost whole = self@.scan(id, all, 0);
        let mut i: usize = 0;
        proof {
            assert(views(out@) =~= Seq::empty());
            assert(Seq::<DeliveryView>::empty() + whole.1 =~= whole.1);
        }
        while i < entries.len()
            invariant
                i <= entries.len(),
                all == views(entries@),
                self@.scan(id, all, i as nat).0 == whole.0,
                views(out@) + self@.scan(id, all, i as nat).1 == whole.1,
            decreases entries.len() - i,
        {
            let ghost before = self@;
            let ghost sent = views(out@);
            self.scan_entry(id, &entries[i], &mut out);
            proof {
                let first = before.scan_entry(id, all[i as int]);
                let rest = first.0.scan(id, all, (i + 1) as nat);
                assert(before.scan(id, all, i as nat).1 == first.1 + rest.1);
                assert((sent + first.1) + rest.1 =~= sent + (first.1 + rest.1));
            }
            i = i + 1;
        }
        proof {
            assert(views(out@) + Seq::<DeliveryView>::empty() =~= views(out@));
        }
        out
    }

    /// Stops the delegate for `kind`. Returns the error for every
    /// subscriber; a delegate that had stopped before returns nothing.
    pub fn stop(&mut self, kind: ErrorKind) -> (out: Vec<Delivery>)
        ensures
            (final(self)@, views(out@)) == old(self)@.stop(kind),
    {
        let mut out: Vec<Delivery> = Vec::new();
        proof {
            assert(views(out@) =~= Seq::empty());
        }
        match self.state {
            DelegateState::Stopped(_) => {
                return out;
            },
            _ => {},
        }
        let ghost ds = self@.downstreams;
        let mut i: usize = 0;
        while i < self.downstreams.len()
            invariant
                i <= self.downstreams.len(),
                ds == views(self.downstreams@),
                views(out@) == errors_for(ds, kind).take(i as int),
            decreases self.downstreams.len() - i,
        {
            let item = Delivery { downstream: self.downstreams[i].id, event: Event::Error(kind) };
            proof {
                lemma_views_push(out@, item);
                assert(errors_for(ds, kind).take(i as int).push(item@) =~= errors_for(ds, kind).take(
                    i + 1,
                ));
            }
            out.push(item);
            i = i + 1;
        }
        proof {
            assert(errors_for(ds, kind).take(ds.len() as int) =~= errors_for(ds, kind));
        }
        self.state = DelegateState::Stopped(kind);
        self.downstreams = Vec::new();
        self.buffer = Vec::new();
        self.held = Vec::new();
        proof {
            assert(views(self.downstreams@) =~= Seq::empty());
            assert(views(self.buffer@) =~= Seq::empty());
            assert(views(self.held@) =~= Seq::empty());
        }
        out
    }

    /// Takes the locks that the concurrency-control table holds in memory for
    /// the region, in place of those taken before.
    pub fn observe_memory_locks(&mut self, held: &Vec<TrackedLock>)
        ensures
            final(self)@ == (DelegateView {
                ledger: LedgerView {
                    resolver: old(self)@.ledger.resolver.observe_memory_locks(views(held@)),
                    ..old(self)@.ledger
                },
                ..old(self)@
            }),
    {
        self.ledger.observe_memory_locks(held);
    }

    /// Resolves the region's timestamp with `min_ts`, the lowest timestamp
    /// that a commit may still take, and returns the news for every
    /// subscriber whose scan has ended. Only an initialized delegate does
    /// so. The resolved timestamp never goes back.
    pub fn on_tick(&mut self, min_ts: Ts) -> (out: Vec<Delivery>)
        ensures
            (final(self)@, views(out@)) == old(self)@.tick(min_ts),
            final(self)@.ledger.resolver.resolved_ts >= old(self)@.ledger.resolver.resolved_ts,
    {
        let mut out: Vec<Delivery> = Vec::new();
        proof {
            assert(views(out@) =~= Seq::empty());
        }
        match self.state {
            DelegateState::Initialized => {},
            _ => {
                return out;
            },
        }
        let ts = self.ledger.resolve(min_ts);
        let ghost ds = self@.downstreams;
        let mut i: usize = 0;
        proof {
            assert(ds.take(0) =~= Seq::empty());
        }
        while i < self.downstreams.len()
            invariant
                i <= self.downstreams.len(),
                ds == views(self.downstreams@),
                views(out@) == resolved_for(ds.take(i as int), self.region_id, ts),
            decreases self.downstreams.len() - i,
        {
            proof {
                assert(ds.take(i + 1).drop_last() =~= ds.take(i as int));
                assert(ds.take(i + 1).last() == ds[i as int]);
            }
            if self.downstreams[i].initialized {
                let mut region_ids: Vec<u64> = Vec::new();
                region_ids.push(self.region_id);
                let item = Delivery {
                    downstream: self.downstreams[i].id,
                    event: Event::ResolvedTs { region_ids, ts },
                };
                proof {
                    assert(region_ids@ =~= seq![self.region_id]);
                    lemma_views_push(out@, item);
                }
                out.push(item);
            }
            i = i + 1;
        }
        proof {
            assert(ds.take(ds.len() as int) =~= ds);
        }
        out
    }

    /// The storage read that the caller is to make before it hands in `m`.
    pub fn old_value_request(&self, m: &Mutation, cache: &OldValueCache) -> (r: Option<ReadRequest>)
        ensures
            request_view(r) == self@.old_value_request(m@, cache@),
    {
        if !self.read_old_value {
            return None;
        }
        let pending = match self.state {
            DelegateState::Stopped(_) => {
                return None;
            },
            DelegateState::Pending => true,
            DelegateState::Initialized => false,
        };
        match m {
            Mutation::Lock(l) => {
                if l.op().is_some() && !l.is_bare_put() && l.old_value.is_none() && (pending
                    || !cache.contains(l.key.as_slice())) {
                    Some(
                        ReadRequest {
                            key: crate::bytes::copy_bytes(l.key.as_slice()),
                            read_ts: l.read_ts(),
                        },
                    )
                } else {
                    None
                }
            },
            Mutation::Write(w) => {
                if w.op().is_some() && w.old_value.is_none() && !self.ledger.resolver().is_tracked(
                    w.start_ts,
                    w.key.as_slice(),
                ) && (pending || !cache.contains(w.key.as_slice())) {
                    Some(
                        ReadRequest {
                            key: crate::bytes::copy_bytes(w.key.as_slice()),
                            read_ts: w.start_ts,
                        },
                    )
                } else {
                    None
                }
            },
            Mutation::Raw(_) => None,
        }
    }
}

} // verus!
