//! The bounded cache of previous values.

use vstd::prelude::*;
use crate::bytes::{bytes_eq, copy_bytes, opt_view};

verus! {

/// One cached value.
#[derive(Debug)]
pub struct CacheEntry {
    pub key: Vec<u8>,
    pub value: Vec<u8>,
}

/// The mathematical value of a `CacheEntry`.
pub struct EntryView {
    pub key: Seq<u8>,
    pub value: Seq<u8>,
}

impl View for CacheEntry {
    type V = EntryView;

    open spec fn view(&self) -> EntryView {
        EntryView { key: self.key@, value: self.value@ }
    }
}

/// The value cached for `key`: that of the most recently used entry with it.
pub open spec fn cached(s: Seq<EntryView>, key: Seq<u8>) -> Option<Seq<u8>>
    decreases s.len(),
{
    if s.len() == 0 {
        None
    } else if s.last().key == key {
        Some(s.last().value)
    } else {
        cached(s.drop_last(), key)
    }
}

/// The entries without the most recently used one for `key`.
pub open spec fn forget(s: Seq<EntryView>, key: Seq<u8>) -> Seq<EntryView>
    decreases s.len(),
{
    if s.len() == 0 {
        s
    } else if s.last().key == key {
        s.drop_last()
    } else {
        forget(s.drop_last(), key).push(s.last())
    }
}

/// A counter one higher, which stays at the largest number once it is there.
pub open spec fn bump(c: u64) -> u64 {
    if c < u64::MAX { (c + 1) as u64 } else { c }
}

/// The mathematical value of an `OldValueCache`.
pub struct CacheView {
    /// The most entries the cache holds.
    pub capacity: nat,
    /// The entries, least recently used first.
    pub entries: Seq<EntryView>,
    /// How often a value was asked for.
    pub access_count: u64,
    /// How often a value that was asked for had to be read from storage.
    pub miss_count: u64,
}

impl CacheView {
    /// An empty cache for `capacity` entries.
    pub open spec fn empty(capacity: nat) -> CacheView {
        CacheView { capacity, entries: Seq::empty(), access_count: 0, miss_count: 0 }
    }

    /// Whether the cache holds no more than its capacity.
    pub open spec fn bounded(self) -> bool {
        self.entries.len() <= self.capacity
    }

    /// The value cached for `key`.
    pub open spec fn get(self, key: Seq<u8>) -> Option<Seq<u8>> {
        cached(self.entries, key)
    }

    /// The entries after `value` was stored for `key` as the most recently
    /// used entry: an entry for the key is replaced; else, if the cache is
    /// full, the least recently used entry leaves. A cache of capacity 0
    /// stores nothing.
    pub open spec fn stored(self, key: Seq<u8>, value: Seq<u8>) -> Seq<EntryView> {
        let rest = forget(self.entries, key);
        if self.capacity == 0 {
            rest
        } else if rest.len() >= self.capacity {
            rest.drop_first().push(EntryView { key, value })
        } else {
            rest.push(EntryView { key, value })
        }
    }

    /// The cache after a write to `key` was seen: its entry is refreshed.
    pub open spec fn refresh(self, key: Seq<u8>, value: Seq<u8>) -> CacheView {
        CacheView { entries: self.stored(key, value), ..self }
    }

    /// The cache after the value of `key` was asked for and the caller knew
    /// it already: the value is cached, and the access counts as a hit.
    pub open spec fn after_known(self, key: Seq<u8>, value: Seq<u8>) -> CacheView {
        CacheView {
            entries: self.stored(key, value),
            access_count: bump(self.access_count),
            ..self
        }
    }

    /// The cache after the value of `key` was asked for, where `fetched` is
    /// what a storage read gave, if one was made.
    pub open spec fn after_get(self, key: Seq<u8>, fetched: Option<Seq<u8>>) -> CacheView {
        match self.get(key) {
            Some(v) => CacheView {
                entries: self.stored(key, v),
                access_count: bump(self.access_count),
                ..self
            },
            None => match fetched {
                Some(f) => CacheView {
                    entries: self.stored(key, f),
                    access_count: bump(self.access_count),
                    miss_count: bump(self.miss_count),
                    ..self
                },
                None => CacheView { access_count: bump(self.access_count), ..self },
            },
        }
    }

    /// The value that asking for `key` gives: the cached one; else what the
    /// storage read gave; else nothing.
    pub open spec fn value_of(self, key: Seq<u8>, fetched: Option<Seq<u8>>) -> Seq<u8> {
        match self.get(key) {
            Some(v) => v,
            None => match fetched {
                Some(f) => f,
                None => Seq::empty(),
            },
        }
    }
}

/// Forgetting a key never makes the cache longer.
pub proof fn lemma_forget_len(s: Seq<EntryView>, key: Seq<u8>)
    ensures
        forget(s, key).len() <= s.len(),
        cached(s, key) is None ==> forget(s, key) == s,
        cached(s, key) is Some ==> forget(s, key).len() + 1 == s.len(),
    decreases s.len(),
{
    if s.len() > 0 && s.last().key != key {
        lemma_forget_len(s.drop_last(), key);
        if cached(s, key) is None {
            assert(forget(s, key) =~= s);
        }
    }
}

/// Storing a value keeps a bounded cache bounded, and the stored value is
/// what the cache then holds for the key, unless the capacity is 0.
pub proof fn lemma_stored(c: CacheView, key: Seq<u8>, value: Seq<u8>)
    ensures
        c.bounded() ==> c.refresh(key, value).bounded(),
        c.capacity > 0 ==> c.refresh(key, value).get(key) == Some(value),
        c.capacity > 0 ==> c.refresh(key, value).entries.last() == (EntryView { key, value }),
{
    lemma_forget_len(c.entries, key);
}

/// The counters never go down, and the misses never outgrow the accesses.
pub proof fn lemma_counters(c: CacheView, key: Seq<u8>, fetched: Option<Seq<u8>>)
    ensures
        c.after_get(key, fetched).access_count >= c.access_count,
        c.after_get(key, fetched).miss_count >= c.miss_count,
        c.miss_count <= c.access_count ==> c.after_get(key, fetched).miss_count <= c.after_get(
            key,
            fetched,
        ).access_count,
        c.bounded() ==> c.after_get(key, fetched).bounded(),
{
    match c.get(key) {
        Some(v) => lemma_stored(c, key, v),
        None => match fetched {
            Some(f) => lemma_stored(c, key, f),
            None => {},
        },
    }
}

/// What `cached` and `forget` are when `at` is the last place of `key`.
proof fn lemma_last_place(s: Seq<EntryView>, key: Seq<u8>, at: int)
    requires
        0 <= at < s.len(),
        s[at].key == key,
        forall|j: int| at < j < s.len() ==> s[j].key != key,
    ensures
        cached(s, key) == Some(s[at].value),
        forget(s, key) == s.remove(at),
    decreases s.len(),
{
    if at == s.len() - 1 {
        assert(s.drop_last() =~= s.remove(at));
    } else {
        lemma_last_place(s.drop_last(), key, at);
        assert(s.drop_last().remove(at).push(s.last()) =~= s.remove(at));
    }
}

/// What `cached` and `forget` are when no entry has `key`.
proof fn lemma_no_place(s: Seq<EntryView>, key: Seq<u8>)
    requires
        forall|j: int| 0 <= j < s.len() ==> s[j].key != key,
    ensures
        cached(s, key) is None,
        forget(s, key) == s,
    decreases s.len(),
{
    if s.len() > 0 {
        lemma_no_place(s.drop_last(), key);
        assert(s.drop_last().push(s.last()) =~= s);
    }
}

/// A bounded cache from keys to their previous values. When it is full the
/// least recently used entry makes room.
#[derive(Debug)]
pub struct OldValueCache {
    capacity: usize,
    entries: Vec<CacheEntry>,
    access_count: u64,
    miss_count: u64,
}

impl View for OldValueCache {
    type V = CacheView;

    closed spec fn view(&self) -> CacheView {
        CacheView {
            capacity: self.capacity as nat,
            entries: crate::event::views(self.entries@),
            access_count: self.access_count,
            miss_count: self.miss_count,
        }
    }
}

impl OldValueCache {
    /// An empty cache for `capacity` entries.
    pub fn new(capacity: usize) -> (c: OldValueCache)
        ensures
            c@ == CacheView::empty(capacity as nat),
            c@.bounded(),
    {
        let c = OldValueCache { capacity, entries: Vec::new(), access_count: 0, miss_count: 0 };
        assert(c@.entries =~= Seq::empty());
        c
    }

    /// How often a value was asked for.
    pub fn access_count(&self) -> (n: u64)
        ensures
            n == self@.access_count,
    {
        self.access_count
    }

    /// How often a value that was asked for had to be read from storage.
    pub fn miss_count(&self) -> (n: u64)
        ensures
            n == self@.miss_count,
    {
        self.miss_count
    }

    /// The number of cached entries.
    pub fn len(&self) -> (n: usize)
        ensures
            n == self@.entries.len(),
    {
        self.entries.len()
    }

    /// The most entries the cache holds.
    pub fn capacity(&self) -> (n: usize)
        ensures
            n == self@.capacity,
    {
        self.capacity
    }

    /// The last place of `key` among the entries.
    fn place(&self, key: &[u8]) -> (at: Option<usize>)
        ensures
            match at {
                Some(i) => i < self@.entries.len() && self@.entries[i as int].key == key@
                    && self@.get(key@) == Some(self@.entries[i as int].value)
                    && forget(self@.entries, key@) == self@.entries.remove(i as int),
                None => self@.get(key@) is None && forget(self@.entries, key@) == self@.entries,
            },
    {
        let mut i: usize = self.entries.len();
        while i > 0
            invariant
                i <= self.entries.len(),
                forall|j: int| i <= j < self@.entries.len() ==> self@.entries[j].key != key@,
            decreases i,
        {
            i = i - 1;
            if bytes_eq(self.entries[i].key.as_slice(), key) {
                proof {
                    lemma_last_place(self@.entries, key@, i as int);
                }
                return Some(i);
            }
        }
        proof {
            lemma_no_place(self@.entries, key@);
        }
        None
    }

    /// Whether a value is cached for `key`. Counts as no access.
    pub fn contains(&self, key: &[u8]) -> (b: bool)
        ensures
            b == self@.get(key@).is_some(),
    {
        self.place(key).is_some()
    }

    /// Stores `value` for `key` as the most recently used entry.
    fn store(&mut self, key: &[u8], value: Vec<u8>)
        ensures
            final(self)@ == (CacheView { entries: old(self)@.stored(key@, value@), ..old(self)@ }),
    {
        match self.place(key) {
            Some(i) => {
                self.entries.remove(i);
                assert(crate::event::views(self.entries@) =~= old(self)@.entries.remove(i as int));
            },
            None => {},
        }
        if self.capacity == 0 {
            return ;
        }
        if self.entries.len() >= self.capacity {
            let ghost before = crate::event::views(self.entries@);
            self.entries.remove(0);
            assert(crate::event::views(self.entries@) =~= before.drop_first());
        }
        let entry = CacheEntry { key: copy_bytes(key), value };
        proof {
            crate::event::lemma_views_push(self.entries@, entry);
        }
        self.entries.push(entry);
    }

    /// Records a write to `key`: the cache then holds `value` for it.
    pub fn refresh(&mut self, key: &[u8], value: &[u8])
        ensures
            final(self)@ == old(self)@.refresh(key@, value@),
            old(self)@.bounded() ==> final(self)@.bounded(),
    {
        proof {
            lemma_stored(self@, key@, value@);
        }
        self.store(key, copy_bytes(value));
    }

    /// Records that the previous value of `key` was asked for and that the
    /// transaction layer had it at hand: `value` is cached, and the access
    /// counts as a hit.
    pub fn note_known(&mut self, key: &[u8], value: &[u8])
        ensures
            final(self)@ == old(self)@.after_known(key@, value@),
            old(self)@.bounded() ==> final(self)@.bounded(),
    {
        proof {
            lemma_stored(self@, key@, value@);
        }
        if self.access_count < u64::MAX {
            self.access_count = self.access_count + 1;
        }
        self.store(key, copy_bytes(value));
    }

    /// The previous value of `key`. It is the cached one where there is one;
    /// else what the caller read from storage, `fetched`, which is then
    /// cached and counted as a miss; else empty. Every call counts as an
    /// access.
    pub fn get_or_fetch(&mut self, key: &[u8], fetched: Option<Vec<u8>>) -> (value: Vec<u8>)
        ensures
            value@ == old(self)@.value_of(key@, opt_view(fetched)),
            final(self)@ == old(self)@.after_get(key@, opt_view(fetched)),
            old(self)@.bounded() ==> final(self)@.bounded(),
    {
        proof {
            lemma_counters(self@, key@, opt_view(fetched));
        }
        if self.access_count < u64::MAX {
            self.access_count = self.access_count + 1;
        }
        match self.place(key) {
            Some(i) => {
                let value = copy_bytes(self.entries[i].value.as_slice());
                self.store(key, copy_bytes(value.as_slice()));
                value
            },
            None => match fetched {
                Some(f) => {
                    if self.miss_count < u64::MAX {
                        self.miss_count = self.miss_count + 1;
                    }
                    self.store(key, copy_bytes(f.as_slice()));
                    f
                },
                None => Vec::new(),
            },
        }
    }
}

} // verus!
