//! Turning raw lock and write records into change rows, and keeping track of
//! the transactions that are under way in a region.

use vstd::prelude::*;
use crate::Ts;
use crate::bytes::{bytes_eq, copy_bytes, opt_view};
use crate::event::{DataChange, LogKind, Op, Row, views, lemma_views_push};
use crate::old_value::{CacheView, OldValueCache};
use crate::record::{Mutation, MutationView, WriteKind};
use crate::resolver::{Resolver, ResolverView, TrackedLock};

verus! {

/// What a prewrite left behind for its commit.
#[derive(Debug)]
pub struct PendingWrite {
    pub key: Vec<u8>,
    pub start_ts: Ts,
    pub op: Op,
    pub value: Vec<u8>,
    pub txn_source: u64,
}

/// The mathematical value of a `PendingWrite`.
pub struct PendingView {
    pub key: Seq<u8>,
    pub start_ts: Ts,
    pub op: Op,
    pub value: Seq<u8>,
    pub txn_source: u64,
}

impl View for PendingWrite {
    type V = PendingView;

    open spec fn view(&self) -> PendingView {
        PendingView {
            key: self.key@,
            start_ts: self.start_ts,
            op: self.op,
            value: self.value@,
            txn_source: self.txn_source,
        }
    }
}

/// The write that the transaction started at `start_ts` prepared for `key`:
/// the latest one noted.
pub open spec fn pending_of(s: Seq<PendingView>, key: Seq<u8>, start_ts: Ts) -> Option<PendingView>
    decreases s.len(),
{
    if s.len() == 0 {
        None
    } else if s.last().key == key && s.last().start_ts == start_ts {
        Some(s.last())
    } else {
        pending_of(s.drop_last(), key, start_ts)
    }
}

/// The pending writes without those of the transaction started at
/// `start_ts` for `key`.
pub open spec fn drop_pending(s: Seq<PendingView>, key: Seq<u8>, start_ts: Ts) -> Seq<PendingView>
    decreases s.len(),
{
    if s.len() == 0 {
        s
    } else if s.last().key == key && s.last().start_ts == start_ts {
        drop_pending(s.drop_last(), key, start_ts)
    } else {
        drop_pending(s.drop_last(), key, start_ts).push(s.last())
    }
}

/// The pending writes after `p` was noted in place of what was noted for its
/// key and transaction before.
pub open spec fn remember(s: Seq<PendingView>, p: PendingView) -> Seq<PendingView> {
    drop_pending(s, p.key, p.start_ts).push(p)
}

/// A noted write is found again until it is dropped.
pub proof fn lemma_remember(s: Seq<PendingView>, p: PendingView)
    ensures
        pending_of(remember(s, p), p.key, p.start_ts) == Some(p),
{
}

/// A change row, with what decides who receives it.
#[derive(Debug)]
pub struct Emission {
    pub row: DataChange,
    /// The transaction source of the write; not 0 for a replication loop.
    pub source: u64,
    /// Whether the write was made outside any transaction.
    pub raw: bool,
}

/// The mathematical value of an `Emission`.
pub struct Emitted {
    pub row: Row,
    pub source: u64,
    pub raw: bool,
}

impl View for Emission {
    type V = Emitted;

    open spec fn view(&self) -> Emitted {
        Emitted { row: self.row@, source: self.source, raw: self.raw }
    }
}

/// The view of an optional emission.
pub open spec fn emitted_view(e: Option<Emission>) -> Option<Emitted> {
    match e {
        Some(e) => Some(e@),
        None => None,
    }
}

/// The value that a committed change leaves behind for its key.
pub open spec fn value_left(op: Op, value: Seq<u8>) -> Seq<u8> {
    match op {
        Op::Put => value,
        Op::Delete => Seq::empty(),
    }
}

/// The cache and the previous value of `key` after a row that reports it was
/// made. Without `read` nothing is looked up. Else the value that the
/// transaction layer had at hand, `hint`, is taken and cached; else the
/// cache is asked, with `fetched` for what a storage read gave.
pub open spec fn previous_value(
    read: bool,
    hint: Option<Seq<u8>>,
    key: Seq<u8>,
    fetched: Option<Seq<u8>>,
    cache: CacheView,
) -> (CacheView, Seq<u8>) {
    if !read {
        (cache, Seq::empty())
    } else {
        match hint {
            Some(h) => (cache.after_known(key, h), h),
            None => (cache.after_get(key, fetched), cache.value_of(key, fetched)),
        }
    }
}

/// The previous value that a scanned record reports.
pub open spec fn scanned_previous_value(read: bool, hint: Option<Seq<u8>>) -> Seq<u8> {
    match hint {
        Some(h) => if read { h } else { Seq::empty() },
        None => Seq::empty(),
    }
}

/// The mathematical value of a `Ledger`.
pub struct LedgerView {
    pub resolver: ResolverView,
    pub pending: Seq<PendingView>,
}

/// What a record did to a region: the ledger and the cache after it, and the
/// row it gave, if any.
pub struct Classified {
    pub ledger: LedgerView,
    pub cache: CacheView,
    pub emitted: Option<Emitted>,
}

impl LedgerView {
    /// A ledger with nothing under way.
    pub open spec fn empty() -> LedgerView {
        LedgerView { resolver: ResolverView::empty(), pending: Seq::empty() }
    }

    /// What a record from the apply path does.
    ///
    /// A lock that carries data is tracked and gives a `Prewrite`; a put
    /// that came without its value is tracked and gives nothing, and what
    /// its prewrite left behind stays. A lock without data, pessimistic or
    /// read-only, gives nothing and touches nothing. A rollback releases the lock, if one is tracked, and gives a
    /// `Rollback` either way. A write with data gives a `Commit` with the key
    /// and value of its prewrite where its lock is tracked, whether or not the
    /// record also notes another transaction's rollback; where no lock is
    /// tracked it was committed in one phase and gives a `Committed`. The
    /// commit of a lock without data gives nothing. A raw write gives a
    /// `Committed`.
    pub open spec fn live(
        self,
        m: MutationView,
        read: bool,
        fetched: Option<Seq<u8>>,
        cache: CacheView,
    ) -> Classified {
        match m {
            MutationView::Lock(l) => match l.op() {
                None => Classified { ledger: self, cache, emitted: None },
                Some(op) => if l.is_bare_put() {
                    Classified {
                        ledger: LedgerView {
                            resolver: self.resolver.track(l.start_ts, l.key),
                            ..self
                        },
                        cache,
                        emitted: None,
                    }
                } else {
                    let (c, old_value) = previous_value(read, l.old_value, l.key, fetched, cache);
                    Classified {
                        ledger: LedgerView {
                            resolver: self.resolver.track(l.start_ts, l.key),
                            pending: remember(
                                self.pending,
                                PendingView {
                                    key: l.key,
                                    start_ts: l.start_ts,
                                    op,
                                    value: l.value,
                                    txn_source: l.txn_source,
                                },
                            ),
                        },
                        cache: c,
                        emitted: Some(
                            Emitted {
                                row: Row {
                                    kind: LogKind::Prewrite,
                                    op,
                                    key: l.key,
                                    value: l.value,
                                    old_value,
                                    start_ts: l.start_ts,
                                    commit_ts: 0,
                                },
                                source: l.txn_source,
                                raw: false,
                            },
                        ),
                    }
                },
            },
            MutationView::Write(w) => match w.op() {
                None => if w.kind == WriteKind::Rollback {
                    Classified {
                        ledger: LedgerView {
                            resolver: self.resolver.untrack(w.start_ts, w.key),
                            pending: drop_pending(self.pending, w.key, w.start_ts),
                        },
                        cache,
                        emitted: Some(
                            Emitted {
                                row: Row {
                                    kind: LogKind::Rollback,
                                    op: Op::Put,
                                    key: w.key,
                                    value: Seq::empty(),
                                    old_value: Seq::empty(),
                                    start_ts: w.start_ts,
                                    commit_ts: 0,
                                },
                                source: w.txn_source,
                                raw: false,
                            },
                        ),
                    }
                } else {
                    Classified { ledger: self, cache, emitted: None }
                },
                Some(op) => if self.resolver.is_tracked(w.start_ts, w.key) {
                    let prepared = match pending_of(self.pending, w.key, w.start_ts) {
                        Some(p) => p,
                        None => PendingView {
                            key: w.key,
                            start_ts: w.start_ts,
                            op,
                            value: w.value,
                            txn_source: w.txn_source,
                        },
                    };
                    Classified {
                        ledger: LedgerView {
                            resolver: self.resolver.untrack(w.start_ts, w.key),
                            pending: drop_pending(self.pending, w.key, w.start_ts),
                        },
                        cache: if read {
                            cache.refresh(w.key, value_left(prepared.op, prepared.value))
                        } else {
                            cache
                        },
                        emitted: Some(
                            Emitted {
                                row: Row {
                                    kind: LogKind::Commit,
                                    op: prepared.op,
                                    key: w.key,
                                    value: prepared.value,
                                    old_value: Seq::empty(),
                                    start_ts: w.start_ts,
                                    commit_ts: w.commit_ts,
                                },
                                source: prepared.txn_source,
                                raw: false,
                            },
                        ),
                    }
                } else {
                    let (c, old_value) = previous_value(read, w.old_value, w.key, fetched, cache);
                    Classified {
                        ledger: self,
                        cache: if read { c.refresh(w.key, value_left(op, w.value)) } else { c },
                        emitted: Some(
                            Emitted {
                                row: Row {
                                    kind: LogKind::Committed,
                                    op,
                                    key: w.key,
                                    value: w.value,
                                    old_value,
                                    start_ts: w.start_ts,
                                    commit_ts: w.commit_ts,
                                },
                                source: w.txn_source,
                                raw: false,
                            },
                        ),
                    }
                },
            },
            MutationView::Raw(r) => Classified {
                ledger: self,
                cache,
                emitted: Some(
                    Emitted {
                        row: Row {
                            kind: LogKind::Committed,
                            op: r.op,
                            key: r.key,
                            value: r.value,
                            old_value: Seq::empty(),
                            start_ts: r.ts,
                            commit_ts: r.ts,
                        },
                        source: 0,
                        raw: true,
                    },
                ),
            },
        }
    }

    /// The row that a scanned record gives to a subscriber that wants the
    /// changes after `checkpoint_ts`. A lock with data gives a `Prewrite`. A
    /// committed version with data gives a `Committed`, unless it was
    /// committed or superseded at or before the checkpoint; so does a raw
    /// write after the checkpoint. Rollbacks and records without data give
    /// nothing.
    pub open spec fn scanned_row(m: MutationView, read: bool, checkpoint_ts: Ts) -> Option<Emitted> {
        match m {
            MutationView::Lock(l) => match l.op() {
                None => None,
                Some(op) => if l.is_bare_put() {
                    None
                } else {
                    Some(
                        Emitted {
                            row: Row {
                                kind: LogKind::Prewrite,
                                op,
                                key: l.key,
                                value: l.value,
                                old_value: scanned_previous_value(read, l.old_value),
                                start_ts: l.start_ts,
                                commit_ts: 0,
                            },
                            source: l.txn_source,
                            raw: false,
                        },
                    )
                },
            },
            MutationView::Write(w) => match w.op() {
                None => None,
                Some(op) => if w.fenced_at(checkpoint_ts) || w.commit_ts <= checkpoint_ts {
                    None
                } else {
                    Some(
                        Emitted {
                            row: Row {
                                kind: LogKind::Committed,
                                op,
                                key: w.key,
                                value: w.value,
                                old_value: scanned_previous_value(read, w.old_value),
                                start_ts: w.start_ts,
                                commit_ts: w.commit_ts,
                            },
                            source: w.txn_source,
                            raw: false,
                        },
                    )
                },
            },
            MutationView::Raw(r) => if r.ts <= checkpoint_ts {
                None
            } else {
                Some(
                    Emitted {
                        row: Row {
                            kind: LogKind::Committed,
                            op: r.op,
                            key: r.key,
                            value: r.value,
                            old_value: Seq::empty(),
                            start_ts: r.ts,
                            commit_ts: r.ts,
                        },
                        source: 0,
                        raw: true,
                    },
                )
            },
        }
    }

    /// The ledger after a scan found a record: a lock with data is tracked,
    /// and what it prepares is noted unless it came without its value.
    pub open spec fn scanned(self, m: MutationView) -> LedgerView {
        match m {
            MutationView::Lock(l) => match l.op() {
                None => self,
                Some(op) => LedgerView {
                    resolver: self.resolver.track(l.start_ts, l.key),
                    pending: if l.is_bare_put() {
                        self.pending
                    } else {
                        remember(
                            self.pending,
                            PendingView {
                                key: l.key,
                                start_ts: l.start_ts,
                                op,
                                value: l.value,
                                txn_source: l.txn_source,
                            },
                        )
                    },
                },
            },
            _ => self,
        }
    }
}

/// A prewrite followed by its commit gives one `Prewrite` and then one
/// `Commit` with the same key, value and change, and the lock is released.
pub proof fn lemma_prewrite_then_commit(
    ledger: LedgerView,
    l: crate::record::LockRecordView,
    w: crate::record::WriteRecordView,
    read: bool,
    fetched: Option<Seq<u8>>,
    fetched_again: Option<Seq<u8>>,
    cache: CacheView,
)
    requires
        l.op() is Some,
        !l.is_bare_put(),
        w.op() is Some,
        w.key == l.key,
        w.start_ts == l.start_ts,
    ensures
        ({
            let first = ledger.live(MutationView::Lock(l), read, fetched, cache);
            let second = first.ledger.live(MutationView::Write(w), read, fetched_again, first.cache);
            &&& first.emitted is Some
            &&& first.emitted.unwrap().row.kind == LogKind::Prewrite
            &&& first.emitted.unwrap().row.commit_ts == 0
            &&& first.ledger.resolver.is_tracked(l.start_ts, l.key)
            &&& second.emitted is Some
            &&& second.emitted.unwrap().row.kind == LogKind::Commit
            &&& second.emitted.unwrap().row.key == first.emitted.unwrap().row.key
            &&& second.emitted.unwrap().row.value == first.emitted.unwrap().row.value
            &&& second.emitted.unwrap().row.op == first.emitted.unwrap().row.op
            &&& second.emitted.unwrap().row.start_ts == first.emitted.unwrap().row.start_ts
            &&& second.emitted.unwrap().row.commit_ts == w.commit_ts
            &&& second.emitted.unwrap().source == first.emitted.unwrap().source
            &&& second.emitted.unwrap().raw == first.emitted.unwrap().raw
            &&& !second.ledger.resolver.is_tracked(l.start_ts, l.key)
        }),
{
    let lock = crate::resolver::LockView { start_ts: l.start_ts, key: l.key, in_memory: false };
    let first = ledger.live(MutationView::Lock(l), read, fetched, cache);
    if !ledger.resolver.is_tracked(l.start_ts, l.key) {
        let grown = ledger.resolver.locks.push(lock);
        assert(grown[grown.len() - 1] == lock);
    }
    assert(first.ledger.resolver.is_tracked(l.start_ts, l.key));
    crate::resolver::lemma_without(first.ledger.resolver.locks, lock);
}

/// A write with data whose lock is not tracked was committed in one phase:
/// it gives one `Committed` with its own key and value, and no lock is
/// tracked for it afterwards.
pub proof fn lemma_one_phase_commit(
    ledger: LedgerView,
    w: crate::record::WriteRecordView,
    read: bool,
    fetched: Option<Seq<u8>>,
    cache: CacheView,
)
    requires
        w.op() is Some,
        !ledger.resolver.is_tracked(w.start_ts, w.key),
    ensures
        ({
            let c = ledger.live(MutationView::Write(w), read, fetched, cache);
            &&& c.emitted is Some
            &&& c.emitted.unwrap().row.kind == LogKind::Committed
            &&& c.emitted.unwrap().row.key == w.key
            &&& c.emitted.unwrap().row.value == w.value
            &&& c.emitted.unwrap().row.commit_ts == w.commit_ts
            &&& c.ledger == ledger
        }),
{
}

/// No record from the apply path or from a scan moves the resolved timestamp.
pub proof fn lemma_records_keep_resolved_ts(
    ledger: LedgerView,
    m: MutationView,
    read: bool,
    fetched: Option<Seq<u8>>,
    cache: CacheView,
)
    ensures
        ledger.live(m, read, fetched, cache).ledger.resolver.resolved_ts == ledger.resolver.resolved_ts,
        ledger.scanned(m).resolver.resolved_ts == ledger.resolver.resolved_ts,
{
}

/// While every lock that comes starts above the resolved timestamp, the
/// resolved timestamp lies below every tracked lock: a record from the
/// apply path or from a scan keeps it so, unless it is a lock with data
/// that starts at or below the resolved timestamp.
pub proof fn lemma_resolved_ts_stays_below_locks(
    ledger: LedgerView,
    m: MutationView,
    read: bool,
    fetched: Option<Seq<u8>>,
    cache: CacheView,
)
    requires
        ledger.resolver.below_all_locks(),
        match m {
            MutationView::Lock(l) => l.op() is Some ==> l.start_ts > ledger.resolver.resolved_ts,
            _ => true,
        },
    ensures
        ledger.live(m, read, fetched, cache).ledger.resolver.below_all_locks(),
        ledger.scanned(m).resolver.below_all_locks(),
{
    match m {
        MutationView::Lock(l) => {
            crate::resolver::lemma_tracking_is_safe(ledger.resolver, l.start_ts, l.key);
        },
        MutationView::Write(w) => {
            crate::resolver::lemma_tracking_is_safe(ledger.resolver, w.start_ts, w.key);
        },
        MutationView::Raw(_) => {},
    }
}

/// What `pending_of` and `drop_pending` are when no noted write matches.
proof fn lemma_no_pending(s: Seq<PendingView>, key: Seq<u8>, start_ts: Ts)
    requires
        forall|j: int| 0 <= j < s.len() ==> !(s[j].key == key && s[j].start_ts == start_ts),
    ensures
        pending_of(s, key, start_ts) is None,
        drop_pending(s, key, start_ts) == s,
    decreases s.len(),
{
    if s.len() > 0 {
        lemma_no_pending(s.drop_last(), key, start_ts);
        assert(s.drop_last().push(s.last()) =~= s);
    }
}

/// What `pending_of` is when `at` is the last place that matches.
proof fn lemma_last_pending(s: Seq<PendingView>, key: Seq<u8>, start_ts: Ts, at: int)
    requires
        0 <= at < s.len(),
        s[at].key == key && s[at].start_ts == start_ts,
        forall|j: int| at < j < s.len() ==> !(s[j].key == key && s[j].start_ts == start_ts),
    ensures
        pending_of(s, key, start_ts) == Some(s[at]),
    decreases s.len(),
{
    if at < s.len() - 1 {
        lemma_last_pending(s.drop_last(), key, start_ts, at);
    }
}

/// The transactions under way in one region: the resolver with their locks,
/// and what each prewrite left behind for its commit.
#[derive(Debug)]
pub struct Ledger {
    resolver: Resolver,
    pending: Vec<PendingWrite>,
}

impl View for Ledger {
    type V = LedgerView;

    closed spec fn view(&self) -> LedgerView {
        LedgerView { resolver: self.resolver@, pending: views(self.pending@) }
    }
}

impl Ledger {
    /// A ledger with nothing under way.
    pub fn new() -> (r: Ledger)
        ensures
            r@ == LedgerView::empty(),
    {
        let r = Ledger { resolver: Resolver::new(), pending: Vec::new() };
        assert(r@.pending =~= Seq::empty());
        r
    }

    /// The region's resolver.
    pub fn resolver(&self) -> (r: &Resolver)
        ensures
            r@ == self@.resolver,
    {
        &self.resolver
    }

    /// Advances the region's resolved timestamp as far as `proposed` and the
    /// tracked locks allow, and returns it.
    pub fn resolve(&mut self, proposed: Ts) -> (t: Ts)
        ensures
            t == old(self)@.resolver.resolve(proposed),
            t >= old(self)@.resolver.resolved_ts,
            final(self)@ == (LedgerView {
                resolver: ResolverView { resolved_ts: t, ..old(self)@.resolver },
                ..old(self)@
            }),
    {
        self.resolver.resolve(proposed)
    }

    /// Takes the locks that the concurrency-control table holds in memory for
    /// the region, in place of those taken before.
    pub fn observe_memory_locks(&mut self, held: &Vec<TrackedLock>)
        ensures
            final(self)@ == (LedgerView {
                resolver: old(self)@.resolver.observe_memory_locks(views(held@)),
                ..old(self)@
            }),
    {
        self.resolver.observe_memory_locks(held);
    }

    /// The last place of a write noted for `key` and `start_ts`.
    fn find_pending(&self, key: &[u8], start_ts: Ts) -> (at: Option<usize>)
        ensures
            match at {
                Some(i) => i < self@.pending.len() && pending_of(self@.pending, key@, start_ts)
                    == Some(self@.pending[i as int]),
                None => pending_of(self@.pending, key@, start_ts) is None,
            },
    {
        let mut i: usize = self.pending.len();
        while i > 0
            invariant
                i <= self.pending.len(),
                forall|j: int|
                    i <= j < self@.pending.len() ==> !(self@.pending[j].key == key@
                        && self@.pending[j].start_ts == start_ts),
            decreases i,
        {
            i = i - 1;
            if self.pending[i].start_ts == start_ts && bytes_eq(self.pending[i].key.as_slice(), key) {
                proof {
                    lemma_last_pending(self@.pending, key@, start_ts, i as int);
                }
                return Some(i);
            }
        }
        proof {
            lemma_no_pending(self@.pending, key@, start_ts);
        }
        None
    }

    /// Drops what was noted for `key` and `start_ts`.
    fn forget_pending(&mut self, key: &[u8], start_ts: Ts)
        ensures
            final(self)@ == (LedgerView {
                pending: drop_pending(old(self)@.pending, key@, start_ts),
                ..old(self)@
            }),
    {
        let ghost before = self@.pending;
        let mut i: usize = self.pending.len();
        proof {
            assert(before.skip(before.len() as int) =~= Seq::empty());
            assert(before.take(before.len() as int) =~= before);
        }
        // Walks from the back, so that removing an item moves none that is
        // still to be looked at.
        while i > 0
            invariant
                i <= self.pending.len(),
                self.resolver@ == old(self).resolver@,
                before.len() >= i,
                views(self.pending@).take(i as int) == before.take(i as int),
                drop_pending(before, key@, start_ts) == drop_pending(before.take(i as int), key@, start_ts)
                    + views(self.pending@).skip(i as int),
            decreases i,
        {
            i = i - 1;
            let ghost cur = views(self.pending@);
            proof {
                assert(before.take(i + 1).drop_last() =~= before.take(i as int));
                assert(before.take(i + 1).last() == cur[i as int]);
                assert(cur.take(i as int) =~= cur.take(i + 1).take(i as int));
                assert(before.take(i as int) =~= before.take(i + 1).take(i as int));
            }
            if self.pending[i].start_ts == start_ts && bytes_eq(self.pending[i].key.as_slice(), key) {
                self.pending.remove(i);
                proof {
                    assert(views(self.pending@) =~= cur.remove(i as int));
                    assert(views(self.pending@).take(i as int) =~= cur.take(i as int));
                    assert(views(self.pending@).skip(i as int) =~= cur.skip(i + 1));
                }
            } else {
                proof {
                    assert(drop_pending(before.take(i as int), key@, start_ts).push(cur[i as int]) + cur.skip(
                        i + 1,
                    ) =~= drop_pending(before.take(i as int), key@, start_ts) + cur.skip(i as int));
                }
            }
        }
        proof {
            assert(before.take(0) =~= Seq::empty());
            assert(views(self.pending@).skip(0) =~= views(self.pending@));
            assert(Seq::<PendingView>::empty() + views(self.pending@) =~= views(self.pending@));
        }
    }

    /// Notes what a prewrite leaves behind, in place of what was noted for
    /// its key and transaction before.
    fn note(&mut self, p: PendingWrite)
        ensures
            final(self)@ == (LedgerView { pending: remember(old(self)@.pending, p@), ..old(self)@ }),
    {
        self.forget_pending(p.key.as_slice(), p.start_ts);
        proof {
            lemma_views_push(self.pending@, p);
        }
        self.pending.push(p);
    }

    /// The previous value of `key` for a row that reports it.
    fn previous_value(
        read: bool,
        hint: &Option<Vec<u8>>,
        key: &[u8],
        fetched: Option<Vec<u8>>,
        cache: &mut OldValueCache,
    ) -> (value: Vec<u8>)
        ensures
            (final(cache)@, value@) == previous_value(
                read,
                opt_view(*hint),
                key@,
                opt_view(fetched),
                old(cache)@,
            ),
            old(cache)@.bounded() ==> final(cache)@.bounded(),
    {
        if !read {
            Vec::new()
        } else {
            match hint {
                Some(h) => {
                    cache.note_known(key, h.as_slice());
                    copy_bytes(h.as_slice())
                },
                None => cache.get_or_fetch(key, fetched),
            }
        }
    }

    /// Takes a record from the apply path: tracks or releases its lock, looks
    /// up the previous value where `read` asks for it, and returns the row
    /// that the record gives, if any.
    pub fn classify(
        &mut self,
        m: &Mutation,
        read: bool,
        fetched: Option<Vec<u8>>,
        cache: &mut OldValueCache,
    ) -> (r: Option<Emission>)
        ensures
            (Classified { ledger: final(self)@, cache: final(cache)@, emitted: emitted_view(r) })
                == old(self)@.live(m@, read, opt_view(fetched), old(cache)@),
            old(cache)@.bounded() ==> final(cache)@.bounded(),
    {
        match m {
            Mutation::Lock(l) => match l.op() {
                None => None,
                Some(op) => if l.is_bare_put() {
                    self.resolver.track(l.start_ts, l.key.as_slice());
                    None
                } else {
                    let old_value = Self::previous_value(
                        read,
                        &l.old_value,
                        l.key.as_slice(),
                        fetched,
                        cache,
                    );
                    self.resolver.track(l.start_ts, l.key.as_slice());
                    self.note(
                        PendingWrite {
                            key: copy_bytes(l.key.as_slice()),
                            start_ts: l.start_ts,
                            op,
                            value: copy_bytes(l.value.as_slice()),
                            txn_source: l.txn_source,
                        },
                    );
                    Some(
                        Emission {
                            row: DataChange {
                                kind: LogKind::Prewrite,
                                op,
                                key: copy_bytes(l.key.as_slice()),
                                value: copy_bytes(l.value.as_slice()),
                                old_value,
                                start_ts: l.start_ts,
                                commit_ts: 0,
                            },
                            source: l.txn_source,
                            raw: false,
                        },
                    )
                },
            },
            Mutation::Write(w) => match w.op() {
                None => match w.kind {
                    WriteKind::Rollback => {
                        self.resolver.untrack(w.start_ts, w.key.as_slice());
                        self.forget_pending(w.key.as_slice(), w.start_ts);
                        Some(
                            Emission {
                                row: DataChange {
                                    kind: LogKind::Rollback,
                                    op: Op::Put,
                                    key: copy_bytes(w.key.as_slice()),
                                    value: Vec::new(),
                                    old_value: Vec::new(),
                                    start_ts: w.start_ts,
                                    commit_ts: 0,
                                },
                                source: w.txn_source,
                                raw: false,
                            },
                        )
                    },
                    _ => None,
                },
                Some(op) => if self.resolver.is_tracked(w.start_ts, w.key.as_slice()) {
                    let (prepared_op, value, source) = match self.find_pending(
                        w.key.as_slice(),
                        w.start_ts,
                    ) {
                        Some(i) => (
                            self.pending[i].op,
                            copy_bytes(self.pending[i].value.as_slice()),
                            self.pending[i].txn_source,
                        ),
                        None => (op, copy_bytes(w.value.as_slice()), w.txn_source),
                    };
                    self.resolver.untrack(w.start_ts, w.key.as_slice());
                    self.forget_pending(w.key.as_slice(), w.start_ts);
                    if read {
                        match prepared_op {
                            Op::Put => cache.refresh(w.key.as_slice(), value.as_slice()),
                            Op::Delete => {
                                let nothing: Vec<u8> = Vec::new();
                                cache.refresh(w.key.as_slice(), nothing.as_slice())
                            },
                        }
                    }
                    Some(
                        Emission {
                            row: DataChange {
                                kind: LogKind::Commit,
                                op: prepared_op,
                                key: copy_bytes(w.key.as_slice()),
                                value,
                                old_value: Vec::new(),
                                start_ts: w.start_ts,
                                commit_ts: w.commit_ts,
                            },
                            source,
                            raw: false,
                        },
                    )
                } else {
                    let old_value = Self::previous_value(
                        read,
                        &w.old_value,
                        w.key.as_slice(),
                        fetched,
                        cache,
                    );
                    if read {
                        match op {
                            Op::Put => cache.refresh(w.key.as_slice(), w.value.as_slice()),
                            Op::Delete => {
                                let nothing: Vec<u8> = Vec::new();
                                cache.refresh(w.key.as_slice(), nothing.as_slice())
                            },
                        }
                    }
                    Some(
                        Emission {
                            row: DataChange {
                                kind: LogKind::Committed,
                                op,
                                key: copy_bytes(w.key.as_slice()),
                                value: copy_bytes(w.value.as_slice()),
                                old_value,
                                start_ts: w.start_ts,
                                commit_ts: w.commit_ts,
                            },
                            source: w.txn_source,
                            raw: false,
                        },
                    )
                },
            },
            Mutation::Raw(r) => Some(
                Emission {
                    row: DataChange {
                        kind: LogKind::Committed,
                        op: r.op,
                        key: copy_bytes(r.key.as_slice()),
                        value: copy_bytes(r.value.as_slice()),
                        old_value: Vec::new(),
                        start_ts: r.ts,
                        commit_ts: r.ts,
                    },
                    source: 0,
                    raw: true,
                },
            ),
        }
    }

    /// The row that a scanned record gives to a subscriber that wants the
    /// changes after `checkpoint_ts`, if any.
    pub fn scanned_row(m: &Mutation, read: bool, checkpoint_ts: Ts) -> (r: Option<Emission>)
        ensures
            emitted_view(r) == LedgerView::scanned_row(m@, read, checkpoint_ts),
    {
        match m {
            Mutation::Lock(l) => match l.op() {
                None => None,
                Some(op) => if l.is_bare_put() {
                    None
                } else {
                    Some(
                        Emission {
                            row: DataChange {
                                kind: LogKind::Prewrite,
                                op,
                                key: copy_bytes(l.key.as_slice()),
                                value: copy_bytes(l.value.as_slice()),
                                old_value: Self::scanned_previous_value(read, &l.old_value),
                                start_ts: l.start_ts,
                                commit_ts: 0,
                            },
                            source: l.txn_source,
                            raw: false,
                        },
                    )
                },
            },
            Mutation::Write(w) => match w.op() {
                None => None,
                Some(op) => if w.fenced_at(checkpoint_ts) || w.commit_ts <= checkpoint_ts {
                    None
                } else {
                    Some(
                        Emission {
                            row: DataChange {
                                kind: LogKind::Committed,
                                op,
                                key: copy_bytes(w.key.as_slice()),
                                value: copy_bytes(w.value.as_slice()),
                                old_value: Self::scanned_previous_value(read, &w.old_value),
                                start_ts: w.start_ts,
                                commit_ts: w.commit_ts,
                            },
                            source: w.txn_source,
                            raw: false,
                        },
                    )
                },
            },
            Mutation::Raw(r) => if r.ts <= checkpoint_ts {
                None
            } else {
                Some(
                    Emission {
                        row: DataChange {
                            kind: LogKind::Committed,
                            op: r.op,
                            key: copy_bytes(r.key.as_slice()),
                            value: copy_bytes(r.value.as_slice()),
                            old_value: Vec::new(),
                            start_ts: r.ts,
                            commit_ts: r.ts,
                        },
                        source: 0,
                        raw: true,
                    },
                )
            },
        }
    }

    /// The previous value that a scanned record reports.
    fn scanned_previous_value(read: bool, hint: &Option<Vec<u8>>) -> (value: Vec<u8>)
        ensures
            value@ == scanned_previous_value(read, opt_view(*hint)),
    {
        match hint {
            Some(h) => if read { copy_bytes(h.as_slice()) } else { Vec::new() },
            None => Vec::new(),
        }
    }

    /// Takes a record that a scan found while the region's locks are still
    /// being collected: a lock with data is tracked.
    pub fn note_scanned(&mut self, m: &Mutation)
        ensures
            final(self)@ == old(self)@.scanned(m@),
    {
        match m {
            Mutation::Lock(l) => match l.op() {
                None => {},
                Some(op) => {
                    self.resolver.track(l.start_ts, l.key.as_slice());
                    if !l.is_bare_put() {
                        self.note(
                            PendingWrite {
                                key: copy_bytes(l.key.as_slice()),
                                start_ts: l.start_ts,
                                op,
                                value: copy_bytes(l.value.as_slice()),
                                txn_source: l.txn_source,
                            },
                        );
                    }
                },
            },
            _ => {},
        }
    }
}

} // verus!
