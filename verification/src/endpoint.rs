//! The registry of subscribed regions of one node.
//!
//! The endpoint checks subscribe requests, keeps one delegate per region,
//! hands each change to the delegate of its region, and on every tick
//! advances the resolved timestamp of all regions.

use vstd::prelude::*;
use crate::Ts;
use crate::bytes::opt_view;
use crate::delegate::{
    Delegate, DelegateState, DelegateView, ReadRequest, RegionEpoch, distinct_ids, has_request,
    ids_below, lemma_others_keep_ids, mark_initialized, request_view,
};
use crate::downstream::{Downstream, DownstreamView, KeyApi};
use crate::event::{Delivery, DeliveryView, ErrorKind, lemma_views_add, lemma_views_push, views};
use crate::old_value::{CacheView, OldValueCache};
use crate::record::{Mutation, MutationView};
use crate::resolver::TrackedLock;

verus! {

/// The version of the subscriber's software.
#[derive(Clone, Copy, Debug, PartialEq, Eq, Structural)]
pub struct Version {
    pub major: u64,
    pub minor: u64,
    pub patch: u64,
}

impl Version {
    /// Whether a subscriber of this version states its cluster: versions
    /// before 5.3.0 do not.
    pub open spec fn states_cluster(self) -> bool {
        self.major > 5 || (self.major == 5 && self.minor >= 3)
    }

    /// Whether a subscriber of this version states its cluster.
    pub fn checks_cluster(&self) -> (r: bool)
        ensures
            r == self.states_cluster(),
    {
        self.major > 5 || (self.major == 5 && self.minor >= 3)
    }
}

/// A request to follow the changes of a key range of one region.
#[derive(Debug)]
pub struct SubscribeRequest {
    pub cluster_id: u64,
    pub version: Version,
    pub region_id: u64,
    pub region_epoch: RegionEpoch,
    pub request_id: u64,
    pub checkpoint_ts: Ts,
    pub start_key: Vec<u8>,
    pub end_key: Vec<u8>,
    pub read_old_value: bool,
    pub filter_loop: bool,
    pub key_api: KeyApi,
}

/// The mathematical value of a `SubscribeRequest`.
pub struct RequestView {
    pub cluster_id: u64,
    pub version: Version,
    pub region_id: u64,
    pub region_epoch: RegionEpoch,
    pub request_id: u64,
    pub checkpoint_ts: Ts,
    pub start_key: Seq<u8>,
    pub end_key: Seq<u8>,
    pub read_old_value: bool,
    pub filter_loop: bool,
    pub key_api: KeyApi,
}

impl View for SubscribeRequest {
    type V = RequestView;

    open spec fn view(&self) -> RequestView {
        RequestView {
            cluster_id: self.cluster_id,
            version: self.version,
            region_id: self.region_id,
            region_epoch: self.region_epoch,
            request_id: self.request_id,
            checkpoint_ts: self.checkpoint_ts,
            start_key: self.start_key@,
            end_key: self.end_key@,
            read_old_value: self.read_old_value,
            filter_loop: self.filter_loop,
            key_api: self.key_api,
        }
    }
}

impl RequestView {
    /// The subscriber that the request asks for, under the id `id`.
    pub open spec fn downstream(self, id: u64) -> DownstreamView {
        DownstreamView {
            id,
            request_id: self.request_id,
            start_key: self.start_key,
            end_key: self.end_key,
            checkpoint_ts: self.checkpoint_ts,
            read_old_value: self.read_old_value,
            filter_loop: self.filter_loop,
            key_api: self.key_api,
            initialized: false,
            join_pos: 0,
        }
    }
}

/// What the replication layer knows of a region at this moment.
#[derive(Clone, Copy, Debug, PartialEq, Eq, Structural)]
pub struct RegionInfo {
    pub epoch: RegionEpoch,
    /// Whether this node leads the region.
    pub is_leader: bool,
    /// The store that leads the region, as far as this node knows.
    pub leader_hint: u64,
}

/// The place of the first delegate for `region_id`.
pub open spec fn place_of(ds: Seq<DelegateView>, region_id: u64) -> Option<int>
    decreases ds.len(),
{
    if ds.len() == 0 {
        None
    } else {
        match place_of(ds.drop_last(), region_id) {
            Some(i) => Some(i),
            None => if ds.last().region_id == region_id {
                Some(ds.len() - 1)
            } else {
                None
            },
        }
    }
}

/// What `place_of` finds is a place of a delegate for the region, and the
/// first one.
pub proof fn lemma_place_of(ds: Seq<DelegateView>, region_id: u64)
    ensures
        match place_of(ds, region_id) {
            Some(i) => 0 <= i < ds.len() && ds[i].region_id == region_id && forall|j: int|
                0 <= j < i ==> (#[trigger] ds[j]).region_id != region_id,
            None => forall|j: int| 0 <= j < ds.len() ==> (#[trigger] ds[j]).region_id != region_id,
        },
    decreases ds.len(),
{
    if ds.len() > 0 {
        let rest = ds.drop_last();
        lemma_place_of(rest, region_id);
        match place_of(rest, region_id) {
            Some(i) => {
                assert(rest[i] == ds[i]);
                assert forall|j: int| 0 <= j < i implies (#[trigger] ds[j]).region_id != region_id by {
                    assert(rest[j] == ds[j]);
                }
            },
            None => {
                assert forall|j: int| 0 <= j < rest.len() implies (#[trigger] ds[j]).region_id
                    != region_id by {
                    assert(rest[j] == ds[j]);
                }
            },
        }
    }
}

/// What all delegates send out on a tick, in the order of the registry.
pub open spec fn tick_out(ds: Seq<DelegateView>, min_ts: Ts) -> Seq<DeliveryView>
    decreases ds.len(),
{
    if ds.len() == 0 {
        Seq::empty()
    } else {
        tick_out(ds.drop_last(), min_ts) + ds.last().tick(min_ts).1
    }
}

/// The delegates after a tick.
pub open spec fn tick_all(ds: Seq<DelegateView>, min_ts: Ts) -> Seq<DelegateView> {
    Seq::new(ds.len(), |i: int| ds[i].tick(min_ts).0)
}

/// The lowest timestamp that a commit may still take: what the timestamp
/// authority gave, or the lowest timestamp locked in memory if that is less.
pub open spec fn min_commit_ts(authority_ts: Ts, memory_min: Option<Ts>) -> Ts {
    match memory_min {
        Some(m) => if m < authority_ts { m } else { authority_ts },
        None => authority_ts,
    }
}

/// The mathematical value of an `Endpoint`.
pub struct EndpointView {
    pub cluster_id: u64,
    /// The id that the next subscriber gets.
    pub next_id: u64,
    pub delegates: Seq<DelegateView>,
    pub cache: CacheView,
}

/// An endpoint after a step, and what the step sends out.
pub struct Outcome {
    pub endpoint: EndpointView,
    pub out: Seq<DeliveryView>,
}

impl EndpointView {
    /// An endpoint without regions.
    pub open spec fn new(cluster_id: u64, cache_capacity: nat) -> EndpointView {
        EndpointView {
            cluster_id,
            next_id: 1,
            delegates: Seq::empty(),
            cache: CacheView::empty(cache_capacity),
        }
    }

    /// The delegate of `region_id`.
    pub open spec fn delegate(self, region_id: u64) -> Option<DelegateView> {
        match place_of(self.delegates, region_id) {
            Some(i) => Some(self.delegates[i]),
            None => None,
        }
    }

    /// How many subscribers `region_id` has; none without a delegate.
    pub open spec fn downstream_count(self, region_id: u64) -> nat {
        match self.delegate(region_id) {
            Some(d) => d.downstreams.len(),
            None => 0,
        }
    }

    /// Why a request is refused, if it is. The checks come in this order:
    /// the cluster, for subscribers that state theirs; the epoch, where the
    /// zero epoch matches no region; the leadership; and the request id,
    /// which must be new to the region.
    pub open spec fn refusal(self, req: RequestView, info: RegionInfo) -> Option<ErrorKind> {
        if req.version.states_cluster() && req.cluster_id != self.cluster_id {
            Some(ErrorKind::ClusterIdMismatch)
        } else if req.region_epoch.is_zero() || req.region_epoch != info.epoch {
            Some(ErrorKind::EpochNotMatch)
        } else if !info.is_leader {
            Some(ErrorKind::NotLeader(info.leader_hint))
        } else if match self.delegate(req.region_id) {
            Some(d) => has_request(d.downstreams, req.request_id),
            None => false,
        } {
            Some(ErrorKind::DuplicateRequest)
        } else {
            None
        }
    }

    /// The endpoint after it accepted a request: the subscriber joins the
    /// region's delegate, which is made if the region has none.
    pub open spec fn accept(self, req: RequestView, info: RegionInfo) -> EndpointView {
        let d = req.downstream(self.next_id);
        EndpointView {
            next_id: (self.next_id + 1) as u64,
            delegates: match place_of(self.delegates, req.region_id) {
                Some(i) => self.delegates.update(i, self.delegates[i].subscribe(d)),
                None => self.delegates.push(
                    DelegateView::new(req.region_id, info.epoch).subscribe(d),
                ),
            },
            ..self
        }
    }

    /// What a change in `region_id` does: the region's delegate takes it.
    pub open spec fn on_mutation(
        self,
        region_id: u64,
        m: MutationView,
        fetched: Option<Seq<u8>>,
    ) -> Outcome {
        match place_of(self.delegates, region_id) {
            Some(i) => {
                let s = self.delegates[i].on_mutation(m, fetched, self.cache);
                Outcome {
                    endpoint: EndpointView {
                        delegates: self.delegates.update(i, s.delegate),
                        cache: s.cache,
                        ..self
                    },
                    out: s.out,
                }
            },
            None => Outcome { endpoint: self, out: Seq::empty() },
        }
    }

    /// What records of a subscriber's scan do.
    pub open spec fn on_scan(self, region_id: u64, id: u64, entries: Seq<MutationView>) -> Outcome {
        match place_of(self.delegates, region_id) {
            Some(i) => {
                let s = self.delegates[i].scan(id, entries, 0);
                Outcome {
                    endpoint: EndpointView { delegates: self.delegates.update(i, s.0), ..self },
                    out: s.1,
                }
            },
            None => Outcome { endpoint: self, out: Seq::empty() },
        }
    }

    /// What the end of a subscriber's scan does.
    pub open spec fn finish_scan(self, region_id: u64, id: u64) -> Outcome {
        match place_of(self.delegates, region_id) {
            Some(i) => {
                let s = self.delegates[i].finish_scan(id, self.cache);
                Outcome {
                    endpoint: EndpointView {
                        delegates: self.delegates.update(i, s.delegate),
                        cache: s.cache,
                        ..self
                    },
                    out: s.out,
                }
            },
            None => Outcome { endpoint: self, out: Seq::empty() },
        }
    }

    /// What a tick does: every delegate resolves its timestamp.
    pub open spec fn on_tick(self, authority_ts: Ts, memory_min: Option<Ts>) -> Outcome {
        let min_ts = min_commit_ts(authority_ts, memory_min);
        Outcome {
            endpoint: EndpointView { delegates: tick_all(self.delegates, min_ts), ..self },
            out: tick_out(self.delegates, min_ts),
        }
    }

    /// What the loss of a subscriber does: it leaves its delegate, and a
    /// delegate without subscribers is torn down.
    pub open spec fn disconnect(self, region_id: u64, id: u64) -> EndpointView {
        match place_of(self.delegates, region_id) {
            Some(i) => {
                let d = self.delegates[i].unsubscribe(id);
                EndpointView {
                    delegates: if d.downstreams.len() == 0 {
                        self.delegates.remove(i)
                    } else {
                        self.delegates.update(i, d)
                    },
                    ..self
                }
            },
            None => self,
        }
    }

    /// What a failure of `region_id` does, such as a change of epoch or the
    /// loss of leadership: every subscriber of the region receives the
    /// error, and the delegate is torn down.
    pub open spec fn on_region_error(self, region_id: u64, kind: ErrorKind) -> Outcome {
        match place_of(self.delegates, region_id) {
            Some(i) => Outcome {
                endpoint: EndpointView { delegates: self.delegates.remove(i), ..self },
                out: self.delegates[i].stop(kind).1,
            },
            None => Outcome { endpoint: self, out: Seq::empty() },
        }
    }
}

/// Where a delegate is found depends on the regions of the delegates only.
pub proof fn lemma_place_of_same_regions(a: Seq<DelegateView>, b: Seq<DelegateView>, region_id: u64)
    requires
        a.len() == b.len(),
        forall|i: int| 0 <= i < a.len() ==> (#[trigger] a[i]).region_id == b[i].region_id,
    ensures
        place_of(a, region_id) == place_of(b, region_id),
    decreases a.len(),
{
    if a.len() > 0 {
        assert forall|i: int| 0 <= i < a.drop_last().len() implies (#[trigger] a.drop_last()[i]).region_id
            == b.drop_last()[i].region_id by {
            assert(a.drop_last()[i] == a[i]);
            assert(b.drop_last()[i] == b[i]);
        }
        lemma_place_of_same_regions(a.drop_last(), b.drop_last(), region_id);
        assert(a[a.len() - 1].region_id == b[a.len() - 1].region_id);
    }
}

impl EndpointView {
    /// Whether the registry is in order: no region has two delegates, no
    /// delegate has stopped, and the subscribers of a delegate have ids of
    /// their own, which were given out before.
    pub open spec fn wf(self) -> bool {
        &&& forall|i: int, j: int|
            0 <= i < j < self.delegates.len() ==> (#[trigger] self.delegates[i]).region_id != (
            #[trigger] self.delegates[j]).region_id
        &&& forall|i: int|
            0 <= i < self.delegates.len() ==> {
                &&& !((#[trigger] self.delegates[i]).state is Stopped)
                &&& distinct_ids(self.delegates[i].downstreams)
                &&& ids_below(self.delegates[i].downstreams, self.next_id)
            }
    }
}

/// A new endpoint is in order.
pub proof fn lemma_new_is_in_order(cluster_id: u64, cache_capacity: nat)
    ensures
        EndpointView::new(cluster_id, cache_capacity).wf(),
{
}

/// Accepting a request keeps the registry in order, while ids are left.
pub proof fn lemma_accept_keeps_order(e: EndpointView, req: RequestView, info: RegionInfo)
    requires
        e.wf(),
        e.next_id < u64::MAX,
    ensures
        e.accept(req, info).wf(),
{
    lemma_place_of(e.delegates, req.region_id);
    let after = e.accept(req, info);
    assert forall|i: int| 0 <= i < after.delegates.len() implies {
        &&& !((#[trigger] after.delegates[i]).state is Stopped)
        &&& distinct_ids(after.delegates[i].downstreams)
        &&& ids_below(after.delegates[i].downstreams, after.next_id)
    } by {
        let now = after.delegates[i].downstreams;
        if i < e.delegates.len() {
            let before = e.delegates[i].downstreams;
            assert(ids_below(before, e.next_id));
            assert(distinct_ids(before));
            if place_of(e.delegates, req.region_id) == Some(i) {
                assert(now.drop_last() =~= before);
                assert forall|k: int| 0 <= k < now.len() implies (#[trigger] now[k]).id < after.next_id by {
                    if k < before.len() {
                        assert(now[k] == before[k]);
                    }
                }
                assert forall|a: int, b: int| 0 <= a < b < now.len() implies (#[trigger] now[a]).id != (
                #[trigger] now[b]).id by {
                    assert(now[a] == before[a]);
                    if b < before.len() {
                        assert(now[b] == before[b]);
                    }
                }
            } else {
                assert(now == before);
                assert forall|k: int| 0 <= k < now.len() implies (#[trigger] now[k]).id < after.next_id by {
                    assert(before[k].id < e.next_id);
                }
            }
        } else {
            assert(now.len() == 1);
        }
    }
}

/// A change from the apply path keeps the registry in order.
pub proof fn lemma_mutation_keeps_order(
    e: EndpointView,
    region_id: u64,
    m: MutationView,
    fetched: Option<Seq<u8>>,
)
    requires
        e.wf(),
    ensures
        e.on_mutation(region_id, m, fetched).endpoint.wf(),
{
    lemma_place_of(e.delegates, region_id);
}

/// Scanned records keep the registry in order.
pub proof fn lemma_scan_keeps_order(e: EndpointView, region_id: u64, id: u64, entries: Seq<MutationView>)
    requires
        e.wf(),
    ensures
        e.on_scan(region_id, id, entries).endpoint.wf(),
{
    lemma_place_of(e.delegates, region_id);
    match place_of(e.delegates, region_id) {
        Some(i) => {
            crate::delegate::lemma_scan_keeps_standing(e.delegates[i], id, entries, 0);
        },
        None => {},
    }
}

/// The end of a scan keeps the registry in order.
pub proof fn lemma_finish_scan_keeps_order(e: EndpointView, region_id: u64, id: u64)
    requires
        e.wf(),
    ensures
        e.finish_scan(region_id, id).endpoint.wf(),
{
    lemma_place_of(e.delegates, region_id);
    match place_of(e.delegates, region_id) {
        Some(i) => {
            let d = e.delegates[i];
            crate::delegate::lemma_replay_keeps_standing(
                DelegateView { state: DelegateState::Initialized, buffer: Seq::empty(), ..d },
                d.buffer,
                e.cache,
                0,
            );
            let marked = mark_initialized(d.downstreams, id);
            assert forall|k: int| 0 <= k < marked.len() implies (#[trigger] marked[k]).id
                == d.downstreams[k].id by {}
            assert(distinct_ids(d.downstreams));
            assert(ids_below(d.downstreams, e.next_id));
            assert(distinct_ids(marked)) by {
                assert forall|a: int, b: int| 0 <= a < b < marked.len() implies (#[trigger] marked[a]).id
                    != (#[trigger] marked[b]).id by {
                    assert(d.downstreams[a].id != d.downstreams[b].id);
                }
            }
            assert(ids_below(marked, e.next_id)) by {
                assert forall|k: int| 0 <= k < marked.len() implies (#[trigger] marked[k]).id
                    < e.next_id by {
                    assert(d.downstreams[k].id < e.next_id);
                }
            }
        },
        None => {},
    }
}

/// A tick keeps the registry in order.
pub proof fn lemma_tick_keeps_order(e: EndpointView, authority_ts: Ts, memory_min: Option<Ts>)
    requires
        e.wf(),
    ensures
        e.on_tick(authority_ts, memory_min).endpoint.wf(),
{
}

/// The loss of a subscriber keeps the registry in order.
pub proof fn lemma_disconnect_keeps_order(e: EndpointView, region_id: u64, id: u64)
    requires
        e.wf(),
    ensures
        e.disconnect(region_id, id).wf(),
{
    lemma_place_of(e.delegates, region_id);
    match place_of(e.delegates, region_id) {
        Some(i) => {
            lemma_others_keep_ids(e.delegates[i].downstreams, id, e.next_id);
        },
        None => {},
    }
}

/// The failure of a region keeps the registry in order.
pub proof fn lemma_region_error_keeps_order(e: EndpointView, region_id: u64, kind: ErrorKind)
    requires
        e.wf(),
    ensures
        e.on_region_error(region_id, kind).endpoint.wf(),
{
    lemma_place_of(e.delegates, region_id);
}

impl EndpointView {
    /// The resolved timestamp of `region_id`, if the region has a delegate.
    pub open spec fn resolved_ts(self, region_id: u64) -> Option<Ts> {
        match self.delegate(region_id) {
            Some(d) => Some(d.ledger.resolver.resolved_ts),
            None => None,
        }
    }

    /// Whether no region that has a delegate here and in `later` has a
    /// lower resolved timestamp in `later`.
    pub open spec fn never_goes_back(self, later: EndpointView) -> bool {
        forall|region_id: u64|
            (#[trigger] self.resolved_ts(region_id)) is Some && later.resolved_ts(region_id) is Some
                ==> later.resolved_ts(region_id).unwrap() >= self.resolved_ts(region_id).unwrap()
    }
}

/// While a region keeps its delegate, its resolved timestamp never goes
/// back: changes, scans and new subscribers leave it as it is, and a tick
/// moves it forward only.
pub proof fn lemma_resolved_ts_never_goes_back(
    e: EndpointView,
    req: RequestView,
    info: RegionInfo,
    region_id: u64,
    id: u64,
    m: MutationView,
    fetched: Option<Seq<u8>>,
    entries: Seq<MutationView>,
    authority_ts: Ts,
    memory_min: Option<Ts>,
)
    requires
        e.wf(),
    ensures
        e.never_goes_back(e.accept(req, info)),
        e.never_goes_back(e.on_mutation(region_id, m, fetched).endpoint),
        e.never_goes_back(e.on_scan(region_id, id, entries).endpoint),
        e.never_goes_back(e.finish_scan(region_id, id).endpoint),
        e.never_goes_back(e.on_tick(authority_ts, memory_min).endpoint),
{
    let min_ts = min_commit_ts(authority_ts, memory_min);
    let ticked = e.on_tick(authority_ts, memory_min).endpoint;
    assert forall|r: u64| (#[trigger] e.resolved_ts(r)) is Some && ticked.resolved_ts(r) is Some implies ticked.resolved_ts(
        r,
    ).unwrap() >= e.resolved_ts(r).unwrap() by {
        lemma_place_of_same_regions(ticked.delegates, e.delegates, r);
        lemma_place_of(e.delegates, r);
        let i = place_of(e.delegates, r).unwrap();
        crate::resolver::lemma_resolve_is_safe(e.delegates[i].ledger.resolver, min_ts);
    }
    match place_of(e.delegates, region_id) {
        Some(i) => {
            lemma_place_of(e.delegates, region_id);
            let d = e.delegates[i];
            crate::delegate::lemma_resolved_ts_never_goes_back(d, m, fetched, e.cache, id, entries, min_ts);
            let changed = e.on_mutation(region_id, m, fetched).endpoint;
            let scanned = e.on_scan(region_id, id, entries).endpoint;
            let finished = e.finish_scan(region_id, id).endpoint;
            crate::delegate::lemma_scan_keeps_standing(d, id, entries, 0);
            crate::delegate::lemma_replay_keeps_standing(
                DelegateView { state: DelegateState::Initialized, buffer: Seq::empty(), ..d },
                d.buffer,
                e.cache,
                0,
            );
            assert forall|r: u64| (#[trigger] e.resolved_ts(r)) is Some implies changed.resolved_ts(r)
                == e.resolved_ts(r) && scanned.resolved_ts(r) == e.resolved_ts(r)
                && finished.resolved_ts(r) == e.resolved_ts(r) by {
                lemma_place_of_same_regions(changed.delegates, e.delegates, r);
                lemma_place_of_same_regions(scanned.delegates, e.delegates, r);
                lemma_place_of_same_regions(finished.delegates, e.delegates, r);
                lemma_place_of(e.delegates, r);
            }
        },
        None => {},
    }
    let accepted = e.accept(req, info);
    assert forall|r: u64| (#[trigger] e.resolved_ts(r)) is Some implies accepted.resolved_ts(r)
        == e.resolved_ts(r) by {
        lemma_place_of(e.delegates, r);
        lemma_place_of(e.delegates, req.region_id);
        match place_of(e.delegates, req.region_id) {
            Some(i) => {
                lemma_place_of_same_regions(accepted.delegates, e.delegates, r);
            },
            None => {
                assert(accepted.delegates.drop_last() =~= e.delegates);
            },
        }
    }
}

/// A request that was accepted is refused as a duplicate when it comes
/// again, and the refusal leaves the region's subscribers as they were.
pub proof fn lemma_resubscribing_is_refused(e: EndpointView, req: RequestView, info: RegionInfo)
    requires
        e.wf(),
        e.refusal(req, info) is None,
    ensures
        e.accept(req, info).refusal(req, info) == Some(ErrorKind::DuplicateRequest),
        e.accept(req, info).downstream_count(req.region_id) == e.downstream_count(req.region_id) + 1,
{
    lemma_place_of(e.delegates, req.region_id);
    let after = e.accept(req, info);
    match place_of(e.delegates, req.region_id) {
        Some(i) => {
            lemma_place_of_same_regions(after.delegates, e.delegates, req.region_id);
            let d = after.delegates[i];
            assert(d.downstreams[d.downstreams.len() - 1].request_id == req.request_id);
        },
        None => {
            assert(after.delegates.drop_last() =~= e.delegates);
            let d = after.delegates.last();
            assert(place_of(after.delegates, req.region_id) == Some(after.delegates.len() - 1));
            assert(d.downstreams[d.downstreams.len() - 1].request_id == req.request_id);
        },
    }
}

/// A request under a request id that the region knows is refused as a
/// duplicate, if nothing else is wrong with it.
pub proof fn lemma_duplicate_request(e: EndpointView, req: RequestView, info: RegionInfo)
    requires
        !(req.version.states_cluster() && req.cluster_id != e.cluster_id),
        !req.region_epoch.is_zero() && req.region_epoch == info.epoch,
        info.is_leader,
        e.delegate(req.region_id) is Some,
        has_request(e.delegate(req.region_id).unwrap().downstreams, req.request_id),
    ensures
        e.refusal(req, info) == Some(ErrorKind::DuplicateRequest),
{
}

/// A request with the zero epoch is refused for its epoch, whatever is
/// known of the region, unless its cluster is refused first.
pub proof fn lemma_zero_epoch_is_stale(e: EndpointView, req: RequestView, info: RegionInfo)
    requires
        req.region_epoch.is_zero(),
        !(req.version.states_cluster() && req.cluster_id != e.cluster_id),
    ensures
        e.refusal(req, info) == Some(ErrorKind::EpochNotMatch),
{
}

/// A failure of a region sends its subscribers one error each and leaves
/// the region without delegate and so without subscribers.
pub proof fn lemma_region_error_clears_region(e: EndpointView, region_id: u64, kind: ErrorKind)
    requires
        e.wf(),
        e.delegate(region_id) is Some,
    ensures
        e.on_region_error(region_id, kind).out.len() == e.downstream_count(region_id),
        forall|i: int|
            0 <= i < e.downstream_count(region_id) ==> (#[trigger] e.on_region_error(
                region_id,
                kind,
            ).out[i]).event == crate::event::EventView::Error(kind),
        e.on_region_error(region_id, kind).endpoint.delegate(region_id) is None,
        e.on_region_error(region_id, kind).endpoint.downstream_count(region_id) == 0,
{
    lemma_place_of(e.delegates, region_id);
    let i = place_of(e.delegates, region_id).unwrap();
    let after = e.delegates.remove(i);
    lemma_place_of(after, region_id);
    if place_of(after, region_id) is Some {
        let j = place_of(after, region_id).unwrap();
        if j < i {
            assert(after[j] == e.delegates[j]);
        } else {
            assert(after[j] == e.delegates[j + 1]);
        }
    }
}

/// A delegate found among the first `k` is the one found among all.
proof fn lemma_place_prefix(ds: Seq<DelegateView>, region_id: u64, k: int)
    requires
        0 <= k <= ds.len(),
        place_of(ds.take(k), region_id) is Some,
    ensures
        place_of(ds, region_id) == place_of(ds.take(k), region_id),
    decreases ds.len(),
{
    if k < ds.len() {
        assert(ds.drop_last().take(k) =~= ds.take(k));
        lemma_place_prefix(ds.drop_last(), region_id, k);
    } else {
        assert(ds.take(k) =~= ds);
    }
}

/// The registry of subscribed regions of one node, with the cache of
/// previous values that they share.
#[derive(Debug)]
pub struct Endpoint {
    cluster_id: u64,
    next_id: u64,
    delegates: Vec<Delegate>,
    cache: OldValueCache,
}

impl View for Endpoint {
    type V = EndpointView;

    closed spec fn view(&self) -> EndpointView {
        EndpointView {
            cluster_id: self.cluster_id,
            next_id: self.next_id,
            delegates: views(self.delegates@),
            cache: self.cache@,
        }
    }
}

impl Endpoint {
    /// An endpoint without regions, for the cluster `cluster_id` and with a
    /// cache of `cache_capacity` entries.
    pub fn new(cluster_id: u64, cache_capacity: usize) -> (e: Endpoint)
        ensures
            e@ == EndpointView::new(cluster_id, cache_capacity as nat),
            e@.wf(),
            e@.cache.bounded(),
    {
        let e = Endpoint {
            cluster_id,
            next_id: 1,
            delegates: Vec::new(),
            cache: OldValueCache::new(cache_capacity),
        };
        assert(e@.delegates =~= Seq::empty());
        e
    }

    /// The cache of previous values.
    pub fn old_value_cache(&self) -> (c: &OldValueCache)
        ensures
            c@ == self@.cache,
    {
        &self.cache
    }

    /// The id that the next subscriber gets.
    pub fn next_id(&self) -> (id: u64)
        ensures
            id == self@.next_id,
    {
        self.next_id
    }

    /// The number of regions with a delegate.
    pub fn region_count(&self) -> (n: usize)
        ensures
            n == self@.delegates.len(),
    {
        self.delegates.len()
    }

    /// The place of the delegate of `region_id`.
    fn find(&self, region_id: u64) -> (at: Option<usize>)
        ensures
            match at {
                Some(i) => i < self@.delegates.len() && place_of(self@.delegates, region_id) == Some(
                    i as int,
                ),
                None => place_of(self@.delegates, region_id) is None,
            },
    {
        let ghost ds = self@.delegates;
        let mut i: usize = 0;
        proof {
            assert(ds.take(0) =~= Seq::empty());
        }
        while i < self.delegates.len()
            invariant
                i <= self.delegates.len(),
                ds == views(self.delegates@),
                place_of(ds.take(i as int), region_id) is None,
            decreases self.delegates.len() - i,
        {
            proof {
                assert(ds.take(i + 1).drop_last() =~= ds.take(i as int));
                assert(ds.take(i + 1).last() == ds[i as int]);
            }
            if self.delegates[i].region_id() == region_id {
                proof {
                    lemma_place_prefix(ds, region_id, i + 1);
                }
                return Some(i);
            }
            i = i + 1;
        }
        proof {
            assert(ds.take(ds.len() as int) =~= ds);
        }
        None
    }

    /// The delegate of `region_id`, for inspection.
    pub fn delegate(&self, region_id: u64) -> (d: Option<&Delegate>)
        ensures
            match d {
                Some(d) => self@.delegate(region_id) == Some(d@),
                None => self@.delegate(region_id) is None,
            },
    {
        match self.find(region_id) {
            Some(i) => Some(&self.delegates[i]),
            None => None,
        }
    }

    /// How many subscribers `region_id` has, for inspection. A region
    /// without a delegate is not found.
    pub fn downstream_count(&self, region_id: u64) -> (r: Result<usize, ErrorKind>)
        ensures
            match self@.delegate(region_id) {
                Some(d) => r == Ok::<usize, ErrorKind>(d.downstreams.len() as usize),
                None => r == Err::<usize, ErrorKind>(ErrorKind::RegionNotFound),
            },
    {
        match self.find(region_id) {
            Some(i) => Ok(self.delegates[i].downstreams().len()),
            None => Err(ErrorKind::RegionNotFound),
        }
    }

    /// Why a request is refused, if it is.
    pub fn refusal(&self, req: &SubscribeRequest, info: RegionInfo) -> (r: Option<ErrorKind>)
        ensures
            r == self@.refusal(req@, info),
    {
        if req.version.checks_cluster() && req.cluster_id != self.cluster_id {
            return Some(ErrorKind::ClusterIdMismatch);
        }
        if req.region_epoch.zero() || req.region_epoch != info.epoch {
            return Some(ErrorKind::EpochNotMatch);
        }
        if !info.is_leader {
            return Some(ErrorKind::NotLeader(info.leader_hint));
        }
        match self.find(req.region_id) {
            Some(i) => if self.delegates[i].has_request(req.request_id) {
                Some(ErrorKind::DuplicateRequest)
            } else {
                None
            },
            None => None,
        }
    }

    /// Takes a subscribe request, with what the replication layer knows of
    /// the region. A request that is refused changes nothing and returns the
    /// reason. An accepted one returns the id of the new subscriber, which
    /// has joined the region's delegate and is yet to be scanned for.
    pub fn subscribe(&mut self, req: SubscribeRequest, info: RegionInfo) -> (r: Result<
        u64,
        ErrorKind,
    >)
        requires
            old(self)@.next_id < u64::MAX,
        ensures
            match old(self)@.refusal(req@, info) {
                Some(kind) => r == Err::<u64, ErrorKind>(kind) && final(self)@ == old(self)@,
                None => r == Ok::<u64, ErrorKind>(old(self)@.next_id) && final(self)@ == old(
                    self,
                )@.accept(req@, info),
            },
            old(self)@.wf() ==> final(self)@.wf(),
    {
        proof {
            if old(self)@.wf() {
                lemma_accept_keeps_order(old(self)@, req@, info);
            }
        }
        match self.refusal(&req, info) {
            Some(kind) => {
                return Err(kind);
            },
            None => {},
        }
        let id = self.next_id;
        self.next_id = self.next_id + 1;
        let region_id = req.region_id;
        let d = Downstream {
            id,
            request_id: req.request_id,
            start_key: req.start_key,
            end_key: req.end_key,
            checkpoint_ts: req.checkpoint_ts,
            read_old_value: req.read_old_value,
            filter_loop: req.filter_loop,
            key_api: req.key_api,
            initialized: false,
            join_pos: 0,
        };
        let ghost before = views(self.delegates@);
        match self.find(region_id) {
            Some(i) => {
                let mut delegate = self.delegates.remove(i);
                delegate.subscribe(d);
                self.delegates.insert(i, delegate);
                proof {
                    assert(views(self.delegates@) =~= before.update(i as int, before[i as int].subscribe(d@)));
                }
            },
            None => {
                let mut delegate = Delegate::new(region_id, info.epoch);
                delegate.subscribe(d);
                proof {
                    lemma_views_push(self.delegates@, delegate);
                }
                self.delegates.push(delegate);
            },
        }
        Ok(id)
    }

    /// The storage read that the caller is to make before it hands in `m`
    /// for `region_id`.
    pub fn old_value_request(&self, region_id: u64, m: &Mutation) -> (r: Option<ReadRequest>)
        ensures
            request_view(r) == match self@.delegate(region_id) {
                Some(d) => d.old_value_request(m@, self@.cache),
                None => None,
            },
    {
        match self.find(region_id) {
            Some(i) => self.delegates[i].old_value_request(m, &self.cache),
            None => None,
        }
    }

    /// Takes a change of `region_id` from the apply path, with what the
    /// caller read from storage for its previous value, if it did. Returns
    /// what to send out. A region without a delegate sends nothing.
    pub fn on_mutation(&mut self, region_id: u64, m: Mutation, fetched: Option<Vec<u8>>) -> (out:
        Vec<Delivery>)
        ensures
            (Outcome { endpoint: final(self)@, out: views(out@) }) == old(self)@.on_mutation(
                region_id,
                m@,
                opt_view(fetched),
            ),
            old(self)@.cache.bounded() ==> final(self)@.cache.bounded(),
            old(self)@.wf() ==> final(self)@.wf(),
    {
        proof {
            if old(self)@.wf() {
                lemma_mutation_keeps_order(old(self)@, region_id, m@, opt_view(fetched));
            }
        }
        let ghost before = views(self.delegates@);
        match self.find(region_id) {
            Some(i) => {
                let mut delegate = self.delegates.remove(i);
                let out = delegate.on_mutation(m, fetched, &mut self.cache);
                self.delegates.insert(i, delegate);
                proof {
                    assert(views(self.delegates@) =~= before.update(i as int, delegate@));
                }
                out
            },
            None => {
                let out: Vec<Delivery> = Vec::new();
                proof {
                    assert(views(out@) =~= Seq::empty());
                }
                out
            },
        }
    }

    /// Takes records found by the scan of subscriber `id` of `region_id`, in
    /// scan order. Returns the rows to send to the subscriber.
    pub fn on_scan(&mut self, region_id: u64, id: u64, entries: &Vec<Mutation>) -> (out: Vec<
        Delivery,
    >)
        ensures
            (Outcome { endpoint: final(self)@, out: views(out@) }) == old(self)@.on_scan(
                region_id,
                id,
                views(entries@),
            ),
            old(self)@.wf() ==> final(self)@.wf(),
    {
        proof {
            if old(self)@.wf() {
                lemma_scan_keeps_order(old(self)@, region_id, id, views(entries@));
            }
        }
        let ghost before = views(self.delegates@);
        match self.find(region_id) {
            Some(i) => {
                let mut delegate = self.delegates.remove(i);
                let out = delegate.on_scan(id, entries);
                self.delegates.insert(i, delegate);
                proof {
                    assert(views(self.delegates@) =~= before.update(i as int, delegate@));
                }
                out
            },
            None => {
                let out: Vec<Delivery> = Vec::new();
                proof {
                    assert(views(out@) =~= Seq::empty());
                }
                out
            },
        }
    }

    /// Ends the scan of subscriber `id` of `region_id`. Returns what to
    /// send out, the marker last.
    pub fn finish_scan(&mut self, region_id: u64, id: u64) -> (out: Vec<Delivery>)
        ensures
            (Outcome { endpoint: final(self)@, out: views(out@) }) == old(self)@.finish_scan(
                region_id,
                id,
            ),
            old(self)@.cache.bounded() ==> final(self)@.cache.bounded(),
            old(self)@.wf() ==> final(self)@.wf(),
    {
        proof {
            if old(self)@.wf() {
                lemma_finish_scan_keeps_order(old(self)@, region_id, id);
            }
        }
        let ghost before = views(self.delegates@);
        match self.find(region_id) {
            Some(i) => {
                let mut delegate = self.delegates.remove(i);
                let out = delegate.finish_scan(id, &mut self.cache);
                self.delegates.insert(i, delegate);
                proof {
                    assert(views(self.delegates@) =~= before.update(i as int, delegate@));
                }
                out
            },
            None => {
                let out: Vec<Delivery> = Vec::new();
                proof {
                    assert(views(out@) =~= Seq::empty());
                }
                out
            },
        }
    }

    /// Takes the locks that the concurrency-control table holds in memory for
    /// `region_id`, in place of those taken before.
    pub fn observe_memory_locks(&mut self, region_id: u64, held: &Vec<TrackedLock>)
        ensures
            final(self)@ == (EndpointView {
                delegates: match place_of(old(self)@.delegates, region_id) {
                    Some(i) => old(self)@.delegates.update(
                        i,
                        DelegateView {
                            ledger: crate::classify::LedgerView {
                                resolver: old(self)@.delegates[i].ledger.resolver.observe_memory_locks(
                                    views(held@),
                                ),
                                ..old(self)@.delegates[i].ledger
                            },
                            ..old(self)@.delegates[i]
                        },
                    ),
                    None => old(self)@.delegates,
                },
                ..old(self)@
            }),
            old(self)@.wf() ==> final(self)@.wf(),
    {
        proof {
            lemma_place_of(old(self)@.delegates, region_id);
        }
        let ghost before = views(self.delegates@);
        match self.find(region_id) {
            Some(i) => {
                let mut delegate = self.delegates.remove(i);
                delegate.observe_memory_locks(held);
                self.delegates.insert(i, delegate);
                proof {
                    assert(views(self.delegates@) =~= before.update(i as int, delegate@));
                }
            },
            None => {},
        }
    }

    /// Advances the resolved timestamp of every region. `authority_ts` is a
    /// fresh timestamp of the timestamp authority, `memory_min` the lowest
    /// timestamp that the concurrency-control table holds locked, if any.
    /// Returns the news for the subscribers, region by region; regions
    /// without writes advance too.
    pub fn on_tick(&mut self, authority_ts: Ts, memory_min: Option<Ts>) -> (out: Vec<Delivery>)
        ensures
            (Outcome { endpoint: final(self)@, out: views(out@) }) == old(self)@.on_tick(
                authority_ts,
                memory_min,
            ),
            old(self)@.wf() ==> final(self)@.wf(),
    {
        proof {
            if old(self)@.wf() {
                lemma_tick_keeps_order(old(self)@, authority_ts, memory_min);
            }
        }
        let min_ts = match memory_min {
            Some(m) => if m < authority_ts { m } else { authority_ts },
            None => authority_ts,
        };
        let ghost ds = views(self.delegates@);
        let mut out: Vec<Delivery> = Vec::new();
        let mut i: usize = 0;
        proof {
            assert(views(out@) =~= Seq::empty());
            assert(ds.take(0) =~= Seq::empty());
        }
        while i < self.delegates.len()
            invariant
                i <= self.delegates.len(),
                self.cluster_id == old(self).cluster_id,
                self.next_id == old(self).next_id,
                self.cache == old(self).cache,
                views(self.delegates@).len() == ds.len(),
                forall|j: int| 0 <= j < i ==> views(self.delegates@)[j] == tick_all(ds, min_ts)[j],
                forall|j: int| i <= j < ds.len() ==> views(self.delegates@)[j] == ds[j],
                views(out@) == tick_out(ds.take(i as int), min_ts),
            decreases self.delegates.len() - i,
        {
            let ghost cur = views(self.delegates@);
            let ghost sent = views(out@);
            proof {
                assert(ds.take(i + 1).drop_last() =~= ds.take(i as int));
                assert(ds.take(i + 1).last() == ds[i as int]);
            }
            let mut delegate = self.delegates.remove(i);
            let mut news = delegate.on_tick(min_ts);
            self.delegates.insert(i, delegate);
            proof {
                assert(views(self.delegates@) =~= cur.update(i as int, delegate@));
                lemma_views_add(out@, news@);
            }
            out.append(&mut news);
            i = i + 1;
        }
        proof {
            assert(ds.take(ds.len() as int) =~= ds);
            assert(views(self.delegates@) =~= tick_all(ds, min_ts));
        }
        out
    }

    /// Takes the loss of subscriber `id` of `region_id`, whose sink was
    /// closed or dropped: it leaves its delegate, and a delegate without
    /// subscribers is torn down.
    pub fn disconnect(&mut self, region_id: u64, id: u64)
        ensures
            final(self)@ == old(self)@.disconnect(region_id, id),
            old(self)@.wf() ==> final(self)@.wf(),
    {
        proof {
            if old(self)@.wf() {
                lemma_disconnect_keeps_order(old(self)@, region_id, id);
            }
        }
        let ghost before = views(self.delegates@);
        match self.find(region_id) {
            Some(i) => {
                let mut delegate = self.delegates.remove(i);
                let left = delegate.unsubscribe(id);
                proof {
                    assert(views(self.delegates@) =~= before.remove(i as int));
                }
                if left > 0 {
                    self.delegates.insert(i, delegate);
                    proof {
                        assert(views(self.delegates@) =~= before.update(i as int, delegate@));
                    }
                }
            },
            None => {},
        }
    }

    /// Takes a failure of `region_id`: a change of its epoch, as by a split
    /// or a merge, or the loss of leadership. Returns one error for every
    /// subscriber of the region. The region's delegate is torn down.
    pub fn on_region_error(&mut self, region_id: u64, kind: ErrorKind) -> (out: Vec<Delivery>)
        ensures
            (Outcome { endpoint: final(self)@, out: views(out@) }) == old(self)@.on_region_error(
                region_id,
                kind,
            ),
            old(self)@.wf() ==> final(self)@.wf(),
    {
        proof {
            if old(self)@.wf() {
                lemma_region_error_keeps_order(old(self)@, region_id, kind);
            }
        }
        let ghost before = views(self.delegates@);
        match self.find(region_id) {
            Some(i) => {
                let mut delegate = self.delegates.remove(i);
                proof {
                    assert(views(self.delegates@) =~= before.remove(i as int));
                }
                delegate.stop(kind)
            },
            None => {
                let out: Vec<Delivery> = Vec::new();
                proof {
                    assert(views(out@) =~= Seq::empty());
                }
                out
            },
        }
    }
}

} // verus!
