//! The per-region lock tracker that computes the resolved timestamp.

use vstd::prelude::*;
use crate::Ts;
use crate::bytes::{bytes_eq, copy_bytes};

verus! {

/// A lock that holds the resolved timestamp back.
#[derive(Debug)]
pub struct TrackedLock {
    pub start_ts: Ts,
    pub key: Vec<u8>,
    /// Whether the lock is known only from the concurrency-control table and
    /// has not been written durably.
    pub in_memory: bool,
}

/// The mathematical value of a `TrackedLock`.
pub struct LockView {
    pub start_ts: Ts,
    pub key: Seq<u8>,
    pub in_memory: bool,
}

impl View for TrackedLock {
    type V = LockView;

    open spec fn view(&self) -> LockView {
        LockView { start_ts: self.start_ts, key: self.key@, in_memory: self.in_memory }
    }
}

/// The locks of `s` other than `l`, in order.
pub open spec fn without(s: Seq<LockView>, l: LockView) -> Seq<LockView>
    decreases s.len(),
{
    if s.len() == 0 {
        s
    } else if s.last() == l {
        without(s.drop_last(), l)
    } else {
        without(s.drop_last(), l).push(s.last())
    }
}

/// The durable locks of `s`, in order.
pub open spec fn durable_only(s: Seq<LockView>) -> Seq<LockView>
    decreases s.len(),
{
    if s.len() == 0 {
        s
    } else if s.last().in_memory {
        durable_only(s.drop_last())
    } else {
        durable_only(s.drop_last()).push(s.last())
    }
}

/// The locks of `s`, each marked as held in memory only.
pub open spec fn as_memory(s: Seq<LockView>) -> Seq<LockView> {
    Seq::new(
        s.len(),
        |i: int| LockView { start_ts: s[i].start_ts, key: s[i].key, in_memory: true },
    )
}

/// The smallest start timestamp among the locks, if there is a lock.
pub open spec fn min_start_ts(s: Seq<LockView>) -> Option<Ts>
    decreases s.len(),
{
    if s.len() == 0 {
        None
    } else {
        match min_start_ts(s.drop_last()) {
            None => Some(s.last().start_ts),
            Some(m) => Some(if m <= s.last().start_ts { m } else { s.last().start_ts }),
        }
    }
}

/// The highest timestamp that the locks allow when `proposed` is offered:
/// `proposed` itself, or one below the smallest start timestamp if that is less.
pub open spec fn bound(s: Seq<LockView>, proposed: Ts) -> Ts {
    match min_start_ts(s) {
        None => proposed,
        Some(m) => {
            let below: Ts = if m == 0 { 0 } else { (m - 1) as Ts };
            if proposed <= below { proposed } else { below }
        },
    }
}

/// The mathematical value of a `Resolver`.
pub struct ResolverView {
    /// The tracked locks, in the order in which they were added.
    pub locks: Seq<LockView>,
    /// The last resolved timestamp.
    pub resolved_ts: Ts,
}

impl ResolverView {
    /// A resolver that tracks nothing and has resolved nothing.
    pub open spec fn empty() -> ResolverView {
        ResolverView { locks: Seq::empty(), resolved_ts: 0 }
    }

    /// Whether the durable lock of `key` at `start_ts` is tracked.
    pub open spec fn is_tracked(self, start_ts: Ts, key: Seq<u8>) -> bool {
        self.locks.contains(LockView { start_ts, key, in_memory: false })
    }

    /// The resolver after a durable lock was seen: added unless it is there.
    pub open spec fn track(self, start_ts: Ts, key: Seq<u8>) -> ResolverView {
        if self.is_tracked(start_ts, key) {
            self
        } else {
            ResolverView {
                locks: self.locks.push(LockView { start_ts, key, in_memory: false }),
                ..self
            }
        }
    }

    /// The resolver after a durable lock was released.
    pub open spec fn untrack(self, start_ts: Ts, key: Seq<u8>) -> ResolverView {
        ResolverView {
            locks: without(self.locks, LockView { start_ts, key, in_memory: false }),
            ..self
        }
    }

    /// The resolver after the concurrency-control table reported the locks it
    /// holds in memory: they take the place of those reported before.
    pub open spec fn observe_memory_locks(self, held: Seq<LockView>) -> ResolverView {
        ResolverView { locks: durable_only(self.locks) + as_memory(held), ..self }
    }

    /// The timestamp that resolving with `proposed` gives: what the locks
    /// allow, but never less than what was resolved before.
    pub open spec fn resolve(self, proposed: Ts) -> Ts {
        let b = bound(self.locks, proposed);
        if b >= self.resolved_ts { b } else { self.resolved_ts }
    }

    /// Whether the resolved timestamp lies below every tracked lock.
    pub open spec fn below_all_locks(self) -> bool {
        forall|i: int| 0 <= i < self.locks.len() ==> self.resolved_ts < #[trigger] self.locks[i].start_ts
    }
}

/// The smallest start timestamp is that of a lock, and no lock starts before it.
pub proof fn lemma_min_start_ts(s: Seq<LockView>)
    ensures
        s.len() == 0 <==> min_start_ts(s) is None,
        s.len() > 0 ==> {
            &&& exists|i: int| 0 <= i < s.len() && #[trigger] s[i].start_ts == min_start_ts(s).unwrap()
            &&& forall|i: int| 0 <= i < s.len() ==> min_start_ts(s).unwrap() <= #[trigger] s[i].start_ts
        },
    decreases s.len(),
{
    if s.len() > 0 {
        let rest = s.drop_last();
        lemma_min_start_ts(rest);
        let m = min_start_ts(s).unwrap();
        if rest.len() == 0 {
            assert(s[s.len() - 1].start_ts == m);
        } else {
            let j = choose|j: int| 0 <= j < rest.len() && #[trigger] rest[j].start_ts == min_start_ts(rest).unwrap();
            assert(rest[j] == s[j]);
            if min_start_ts(rest).unwrap() <= s.last().start_ts {
                assert(s[j].start_ts == m);
            } else {
                assert(s[s.len() - 1].start_ts == m);
            }
        }
        assert forall|i: int| 0 <= i < s.len() implies m <= #[trigger] s[i].start_ts by {
            if i < rest.len() {
                assert(rest[i] == s[i]);
            }
        }
    }
}

/// Removing a lock leaves only locks that were there, and never that lock.
pub proof fn lemma_without(s: Seq<LockView>, l: LockView)
    ensures
        !without(s, l).contains(l),
        forall|x: LockView| #[trigger] without(s, l).contains(x) <==> (s.contains(x) && x != l),
        !s.contains(l) ==> without(s, l) == s,
    decreases s.len(),
{
    if s.len() > 0 {
        let rest = s.drop_last();
        lemma_without(rest, l);
        let w = without(s, l);
        assert forall|x: LockView| #[trigger] w.contains(x) <==> (s.contains(x) && x != l) by {
            if w.contains(x) {
                let i = choose|i: int| 0 <= i < w.len() && w[i] == x;
                if s.last() != l && i == w.len() - 1 {
                    assert(s[s.len() - 1] == x);
                } else {
                    assert(without(rest, l)[i] == x);
                    assert(without(rest, l).contains(x));
                    let j = choose|j: int| 0 <= j < rest.len() && rest[j] == x;
                    assert(s[j] == x);
                }
            }
            if s.contains(x) && x != l {
                let j = choose|j: int| 0 <= j < s.len() && s[j] == x;
                if j == s.len() - 1 {
                    assert(w[w.len() - 1] == x);
                } else {
                    assert(rest[j] == x);
                    assert(rest.contains(x));
                    assert(without(rest, l).contains(x));
                    let i = choose|i: int| 0 <= i < without(rest, l).len() && without(rest, l)[i] == x;
                    assert(w[i] == x);
                }
            }
        }
        if !s.contains(l) {
            assert(s[s.len() - 1] == s.last());
            assert forall|x: LockView| rest.contains(x) implies s.contains(x) by {
                let j = choose|j: int| 0 <= j < rest.len() && rest[j] == x;
                assert(s[j] == x);
            }
            assert(w =~= s);
        }
    }
}

/// Resolving never goes back, and from a state in which the resolved
/// timestamp lies below every tracked lock it stays below every tracked lock.
pub proof fn lemma_resolve_is_safe(r: ResolverView, proposed: Ts)
    ensures
        r.resolve(proposed) >= r.resolved_ts,
        r.locks.len() == 0 && proposed >= r.resolved_ts ==> r.resolve(proposed) == proposed,
        r.below_all_locks() ==> (ResolverView { resolved_ts: r.resolve(proposed), ..r }).below_all_locks(),
        r.below_all_locks() ==> forall|i: int| 0 <= i < r.locks.len() ==> r.resolve(proposed) < #[trigger] r.locks[i].start_ts,
{
    lemma_min_start_ts(r.locks);
}

/// Tracking a lock that starts above the resolved timestamp keeps the
/// resolved timestamp below every tracked lock; releasing a lock always does.
pub proof fn lemma_tracking_is_safe(r: ResolverView, start_ts: Ts, key: Seq<u8>)
    requires
        r.below_all_locks(),
    ensures
        start_ts > r.resolved_ts ==> r.track(start_ts, key).below_all_locks(),
        r.untrack(start_ts, key).below_all_locks(),
{
    let l = LockView { start_ts, key, in_memory: false };
    lemma_without(r.locks, l);
    let u = r.untrack(start_ts, key);
    assert forall|i: int| 0 <= i < u.locks.len() implies u.resolved_ts < #[trigger] u.locks[i].start_ts by {
        assert(u.locks.contains(u.locks[i]));
        let j = choose|j: int| 0 <= j < r.locks.len() && r.locks[j] == u.locks[i];
        assert(r.resolved_ts < r.locks[j].start_ts);
    }
}

/// Tracking and releasing are idempotent: a lock that is tracked twice is
/// tracked once, a lock that is released twice is released once, and
/// releasing a lock that was never tracked changes nothing.
pub proof fn lemma_tracking_is_idempotent(r: ResolverView, start_ts: Ts, key: Seq<u8>)
    ensures
        r.track(start_ts, key).track(start_ts, key) == r.track(start_ts, key),
        r.track(start_ts, key).is_tracked(start_ts, key),
        r.untrack(start_ts, key).untrack(start_ts, key) == r.untrack(start_ts, key),
        !r.untrack(start_ts, key).is_tracked(start_ts, key),
        !r.is_tracked(start_ts, key) ==> r.untrack(start_ts, key) == r,
{
    let l = LockView { start_ts, key, in_memory: false };
    if !r.is_tracked(start_ts, key) {
        let grown = r.locks.push(l);
        assert(grown[grown.len() - 1] == l);
    }
    lemma_without(r.locks, l);
    lemma_without(without(r.locks, l), l);
}

/// Tracks the locks of one region and resolves its timestamp.
#[derive(Debug)]
pub struct Resolver {
    locks: Vec<TrackedLock>,
    resolved_ts: Ts,
}

impl View for Resolver {
    type V = ResolverView;

    closed spec fn view(&self) -> ResolverView {
        ResolverView { locks: crate::event::views(self.locks@), resolved_ts: self.resolved_ts }
    }
}

impl Resolver {
    /// A resolver that tracks nothing and has resolved nothing.
    pub fn new() -> (r: Resolver)
        ensures
            r@ == ResolverView::empty(),
    {
        let r = Resolver { locks: Vec::new(), resolved_ts: 0 };
        assert(r@.locks =~= Seq::empty());
        r
    }

    /// The last resolved timestamp.
    pub fn resolved_ts(&self) -> (t: Ts)
        ensures
            t == self@.resolved_ts,
    {
        self.resolved_ts
    }

    /// The number of tracked locks.
    pub fn lock_count(&self) -> (n: usize)
        ensures
            n == self@.locks.len(),
    {
        self.locks.len()
    }

    /// Whether the durable lock of `key` at `start_ts` is tracked.
    pub fn is_tracked(&self, start_ts: Ts, key: &[u8]) -> (b: bool)
        ensures
            b == self@.is_tracked(start_ts, key@),
    {
        let ghost l = LockView { start_ts, key: key@, in_memory: false };
        let mut i: usize = 0;
        while i < self.locks.len()
            invariant
                i <= self.locks.len(),
                l == (LockView { start_ts, key: key@, in_memory: false }),
                forall|j: int| 0 <= j < i ==> self@.locks[j] != l,
            decreases self.locks.len() - i,
        {
            let lock = &self.locks[i];
            if lock.start_ts == start_ts && !lock.in_memory && bytes_eq(lock.key.as_slice(), key) {
                assert(self@.locks[i as int] == l);
                return true;
            }
            i = i + 1;
        }
        false
    }

    /// Starts tracking the durable lock of `key` at `start_ts`. Tracking a
    /// lock that is tracked changes nothing.
    pub fn track(&mut self, start_ts: Ts, key: &[u8])
        ensures
            final(self)@ == old(self)@.track(start_ts, key@),
    {
        if !self.is_tracked(start_ts, key) {
            let lock = TrackedLock { start_ts, key: copy_bytes(key), in_memory: false };
            proof {
                crate::event::lemma_views_push(self.locks@, lock);
            }
            self.locks.push(lock);
        }
    }

    /// Stops tracking the durable lock of `key` at `start_ts`. Releasing a
    /// lock that is not tracked changes nothing.
    pub fn untrack(&mut self, start_ts: Ts, key: &[u8])
        ensures
            final(self)@ == old(self)@.untrack(start_ts, key@),
            !old(self)@.is_tracked(start_ts, key@) ==> final(self)@ == old(self)@,
    {
        let ghost l = LockView { start_ts, key: key@, in_memory: false };
        let ghost before = self@.locks;
        let mut kept: Vec<TrackedLock> = Vec::new();
        let mut i: usize = 0;
        proof {
            assert(before.take(0) =~= Seq::empty());
            assert(crate::event::views(kept@) =~= Seq::empty());
        }
        while i < self.locks.len()
            invariant
                i <= self.locks.len(),
                before == crate::event::views(self.locks@),
                l == (LockView { start_ts, key: key@, in_memory: false }),
                crate::event::views(kept@) == without(before.take(i as int), l),
            decreases self.locks.len() - i,
        {
            let lock = &self.locks[i];
            let same = lock.start_ts == start_ts && !lock.in_memory && bytes_eq(
                lock.key.as_slice(),
                key,
            );
            proof {
                assert(before.take(i + 1).drop_last() =~= before.take(i as int));
                assert(before.take(i + 1).last() == lock@);
            }
            if !same {
                let copy = TrackedLock {
                    start_ts: lock.start_ts,
                    key: copy_bytes(lock.key.as_slice()),
                    in_memory: lock.in_memory,
                };
                proof {
                    crate::event::lemma_views_push(kept@, copy);
                }
                kept.push(copy);
            }
            i = i + 1;
        }
        proof {
            assert(before.take(before.len() as int) =~= before);
            lemma_without(before, l);
        }
        self.locks = kept;
    }

    /// Takes the locks that the concurrency-control table holds in memory for
    /// this region. They replace those taken before: a lock that is no longer
    /// reported no longer holds the resolved timestamp back.
    pub fn observe_memory_locks(&mut self, held: &Vec<TrackedLock>)
        ensures
            final(self)@ == old(self)@.observe_memory_locks(crate::event::views(held@)),
    {
        let ghost before = self@.locks;
        let ghost given = crate::event::views(held@);
        let mut kept: Vec<TrackedLock> = Vec::new();
        let mut i: usize = 0;
        proof {
            assert(before.take(0) =~= Seq::empty());
            assert(crate::event::views(kept@) =~= Seq::empty());
        }
        while i < self.locks.len()
            invariant
                i <= self.locks.len(),
                before == crate::event::views(self.locks@),
                crate::event::views(kept@) == durable_only(before.take(i as int)),
            decreases self.locks.len() - i,
        {
            let lock = &self.locks[i];
            proof {
                assert(before.take(i + 1).drop_last() =~= before.take(i as int));
                assert(before.take(i + 1).last() == lock@);
            }
            if !lock.in_memory {
                let copy = TrackedLock {
                    start_ts: lock.start_ts,
                    key: copy_bytes(lock.key.as_slice()),
                    in_memory: false,
                };
                proof {
                    crate::event::lemma_views_push(kept@, copy);
                }
                kept.push(copy);
            }
            i = i + 1;
        }
        proof {
            assert(before.take(before.len() as int) =~= before);
        }
        let mut j: usize = 0;
        while j < held.len()
            invariant
                j <= held.len(),
                given == crate::event::views(held@),
                crate::event::views(kept@) == durable_only(before) + as_memory(given).take(j as int),
            decreases held.len() - j,
        {
            let lock = &held[j];
            let copy = TrackedLock {
                start_ts: lock.start_ts,
                key: copy_bytes(lock.key.as_slice()),
                in_memory: true,
            };
            proof {
                crate::event::lemma_views_push(kept@, copy);
                assert(as_memory(given).take(j + 1) =~= as_memory(given).take(j as int).push(copy@));
                assert((durable_only(before) + as_memory(given).take(j as int)).push(copy@)
                    =~= durable_only(before) + as_memory(given).take(j + 1));
            }
            kept.push(copy);
            j = j + 1;
        }
        proof {
            assert(as_memory(given).take(held.len() as int) =~= as_memory(given));
        }
        self.locks = kept;
    }

    /// The smallest start timestamp among the tracked locks.
    pub fn min_lock_ts(&self) -> (m: Option<Ts>)
        ensures
            m == min_start_ts(self@.locks),
    {
        let mut m: Option<Ts> = None;
        let mut i: usize = 0;
        proof {
            assert(self@.locks.take(0) =~= Seq::empty());
        }
        while i < self.locks.len()
            invariant
                i <= self.locks.len(),
                m == min_start_ts(self@.locks.take(i as int)),
            decreases self.locks.len() - i,
        {
            let t = self.locks[i].start_ts;
            proof {
                assert(self@.locks.take(i + 1).drop_last() =~= self@.locks.take(i as int));
                assert(self@.locks.take(i + 1).last().start_ts == t);
            }
            m = match m {
                None => Some(t),
                Some(cur) => Some(if cur <= t { cur } else { t }),
            };
            i = i + 1;
        }
        proof {
            assert(self@.locks.take(self@.locks.len() as int) =~= self@.locks);
        }
        m
    }

    /// Advances the resolved timestamp as far as `proposed` and the tracked
    /// locks allow, and returns it. It never goes back; and if it lay below
    /// every tracked lock before, it still does.
    pub fn resolve(&mut self, proposed: Ts) -> (t: Ts)
        ensures
            t == old(self)@.resolve(proposed),
            final(self)@ == (ResolverView { resolved_ts: t, ..old(self)@ }),
            t >= old(self)@.resolved_ts,
            old(self)@.below_all_locks() ==> final(self)@.below_all_locks(),
    {
        proof {
            lemma_resolve_is_safe(self@, proposed);
        }
        let b = match self.min_lock_ts() {
            None => proposed,
            Some(m) => {
                let below: Ts = if m == 0 { 0 } else { m - 1 };
                if proposed <= below { proposed } else { below }
            },
        };
        if b >= self.resolved_ts {
            self.resolved_ts = b;
        }
        self.resolved_ts
    }
}

} // verus!
