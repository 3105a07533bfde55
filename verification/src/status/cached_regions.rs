//! The list of the regions that the in-memory engine caches.

use vstd::prelude::*;
use vstd::seq_lib::{to_multiset_build, to_multiset_insert};
use crate::bytes::{
    bytes_eq, bytes_lt, copy_bytes, lemma_lex_asymmetric, lemma_lex_irreflexive, lemma_lex_total,
    lemma_lex_transitive, lex_lt,
};
use crate::event::{lemma_views_push, views};
use crate::status::text::{has_prefix, piece};
use crate::vecs::reversed;

verus! {

/// A cached region, as the in-memory engine reports it.
#[derive(Debug)]
pub struct RegionSnapshot {
    pub id: u64,
    pub epoch_version: u64,
    /// The first key of the region, as a data key.
    pub start: Vec<u8>,
    /// The key after the last key of the region, as a data key.
    pub end: Vec<u8>,
    pub in_gc: bool,
    pub safe_point: u64,
    /// The state of the region, as the engine names it.
    pub state: Vec<u8>,
    pub is_written: bool,
}

/// A cached region, as the status service shows it. The fields stand in
/// the order in which two regions are compared.
#[derive(Debug)]
pub struct CachedRegion {
    /// The first key of the region, in hexadecimal.
    pub start: Vec<u8>,
    /// The key after the last key of the region, in hexadecimal.
    pub end: Vec<u8>,
    pub id: u64,
    pub epoch_version: u64,
    pub in_gc: bool,
    pub safe_point: u64,
    pub state: Vec<u8>,
    pub is_written: bool,
}

/// The mathematical value of a `RegionSnapshot`.
pub struct SnapshotView {
    pub id: u64,
    pub epoch_version: u64,
    pub start: Seq<u8>,
    pub end: Seq<u8>,
    pub in_gc: bool,
    pub safe_point: u64,
    pub state: Seq<u8>,
    pub is_written: bool,
}

/// The mathematical value of a `CachedRegion`.
pub struct CachedView {
    pub start: Seq<u8>,
    pub end: Seq<u8>,
    pub id: u64,
    pub epoch_version: u64,
    pub in_gc: bool,
    pub safe_point: u64,
    pub state: Seq<u8>,
    pub is_written: bool,
}

impl View for RegionSnapshot {
    type V = SnapshotView;

    open spec fn view(&self) -> SnapshotView {
        SnapshotView {
            id: self.id,
            epoch_version: self.epoch_version,
            start: self.start@,
            end: self.end@,
            in_gc: self.in_gc,
            safe_point: self.safe_point,
            state: self.state@,
            is_written: self.is_written,
        }
    }
}

impl View for CachedRegion {
    type V = CachedView;

    open spec fn view(&self) -> CachedView {
        CachedView {
            start: self.start@,
            end: self.end@,
            id: self.id,
            epoch_version: self.epoch_version,
            in_gc: self.in_gc,
            safe_point: self.safe_point,
            state: self.state@,
            is_written: self.is_written,
        }
    }
}

/// Whether a key is a data key: it begins with the byte `z`.
pub open spec fn is_data_key(key: Seq<u8>) -> bool {
    has_prefix(key, seq![122u8])
}

/// The key that a data key stands for: the key without the leading `z`.
pub open spec fn origin_of(key: Seq<u8>) -> Seq<u8> {
    key.subrange(1, key.len() as int)
}

/// Whether a key is a data key.
pub fn validate_data_key(key: &[u8]) -> (r: bool)
    ensures
        r == is_data_key(key@),
{
    if key.len() >= 1 && key[0] == 122u8 {
        assert(key@.subrange(0, 1) =~= seq![122u8]);
        true
    } else {
        if key.len() >= 1 {
            assert(key@.subrange(0, 1)[0] != seq![122u8][0]);
        }
        false
    }
}

/// The key that a data key stands for.
pub fn origin_key(key: &[u8]) -> (r: Vec<u8>)
    requires
        is_data_key(key@),
    ensures
        r@ == origin_of(key@),
{
    piece(key, 1, key.len())
}

/// The upper-case hexadecimal digit for a number below 16.
pub open spec fn upper_digit(d: int) -> u8 {
    if d < 10 { (48 + d) as u8 } else { (55 + d) as u8 }
}

/// The bytes in hexadecimal, two upper-case digits for each.
pub open spec fn hex_upper_of(data: Seq<u8>) -> Seq<u8> {
    Seq::new(
        2 * data.len(),
        |i: int| if i % 2 == 0 { upper_digit(data[i / 2] as int / 16) } else { upper_digit(data[i / 2] as int % 16) },
    )
}

/// The bytes in hexadecimal. The call is `hex::ToHex::encode_hex_upper`,
/// which writes two upper-case digits for each byte.
#[verifier::external_body]
pub(crate) fn to_hex_string(data: &[u8]) -> (r: Vec<u8>)
    ensures
        r@ == hex_upper_of(data@),
{
    let s: String = hex::ToHex::encode_hex_upper(&data);
    s.into_bytes()
}

/// What the status service shows of a cached region: its keys without the
/// prefix of data keys and in hexadecimal, the rest as it is.
pub open spec fn shown(s: SnapshotView) -> CachedView {
    CachedView {
        start: hex_upper_of(origin_of(s.start)),
        end: hex_upper_of(origin_of(s.end)),
        id: s.id,
        epoch_version: s.epoch_version,
        in_gc: s.in_gc,
        safe_point: s.safe_point,
        state: s.state,
        is_written: s.is_written,
    }
}

/// What the status service shows of a cached region.
pub fn cached_region(s: &RegionSnapshot) -> (r: CachedRegion)
    requires
        is_data_key(s@.start),
        is_data_key(s@.end),
    ensures
        r@ == shown(s@),
{
    let start = origin_key(s.start.as_slice());
    let end = origin_key(s.end.as_slice());
    CachedRegion {
        start: to_hex_string(start.as_slice()),
        end: to_hex_string(end.as_slice()),
        id: s.id,
        epoch_version: s.epoch_version,
        in_gc: s.in_gc,
        safe_point: s.safe_point,
        state: copy_bytes(s.state.as_slice()),
        is_written: s.is_written,
    }
}

/// Whether region `a` comes before region `b`: the first field in which
/// they differ decides, texts by their bytes and `false` before `true`.
pub open spec fn region_lt(a: CachedView, b: CachedView) -> bool {
    if a.start != b.start {
        lex_lt(a.start, b.start)
    } else if a.end != b.end {
        lex_lt(a.end, b.end)
    } else if a.id != b.id {
        a.id < b.id
    } else if a.epoch_version != b.epoch_version {
        a.epoch_version < b.epoch_version
    } else if a.in_gc != b.in_gc {
        !a.in_gc
    } else if a.safe_point != b.safe_point {
        a.safe_point < b.safe_point
    } else if a.state != b.state {
        lex_lt(a.state, b.state)
    } else {
        !a.is_written && b.is_written
    }
}

/// Whether no region of the list comes after a later one.
pub open spec fn in_order(s: Seq<CachedView>) -> bool {
    forall|i: int, j: int| 0 <= i < j < s.len() ==> !region_lt(#[trigger] s[j], #[trigger] s[i])
}

/// The order of regions is strict: no region comes before itself, and of
/// two regions not both come before the other.
pub proof fn lemma_region_order_strict(a: CachedView, b: CachedView)
    ensures
        !region_lt(a, a),
        !(region_lt(a, b) && region_lt(b, a)),
{
    lemma_lex_irreflexive(a.start);
    lemma_lex_asymmetric(a.start, b.start);
    lemma_lex_asymmetric(a.end, b.end);
    lemma_lex_asymmetric(a.state, b.state);
}

/// A region that does not come after a second, which comes before a third,
/// comes before the third.
pub proof fn lemma_region_order_transitive(a: CachedView, b: CachedView, c: CachedView)
    requires
        !region_lt(b, a),
        region_lt(b, c),
    ensures
        region_lt(a, c),
{
    lemma_lex_total(a.start, b.start);
    lemma_lex_total(a.end, b.end);
    lemma_lex_total(a.state, b.state);
    lemma_lex_total(a.start, c.start);
    lemma_lex_total(a.end, c.end);
    lemma_lex_total(a.state, c.state);
    lemma_lex_asymmetric(a.start, c.start);
    lemma_lex_asymmetric(a.end, c.end);
    lemma_lex_asymmetric(a.state, c.state);
    if lex_lt(a.start, b.start) && lex_lt(b.start, c.start) {
        lemma_lex_transitive(a.start, b.start, c.start);
    }
    if lex_lt(a.end, b.end) && lex_lt(b.end, c.end) {
        lemma_lex_transitive(a.end, b.end, c.end);
    }
    if lex_lt(a.state, b.state) && lex_lt(b.state, c.state) {
        lemma_lex_transitive(a.state, b.state, c.state);
    }
}

/// Whether region `a` comes before region `b`.
pub fn region_less(a: &CachedRegion, b: &CachedRegion) -> (r: bool)
    ensures
        r == region_lt(a@, b@),
{
    if !bytes_eq(a.start.as_slice(), b.start.as_slice()) {
        bytes_lt(a.start.as_slice(), b.start.as_slice())
    } else if !bytes_eq(a.end.as_slice(), b.end.as_slice()) {
        bytes_lt(a.end.as_slice(), b.end.as_slice())
    } else if a.id != b.id {
        a.id < b.id
    } else if a.epoch_version != b.epoch_version {
        a.epoch_version < b.epoch_version
    } else if a.in_gc != b.in_gc {
        !a.in_gc
    } else if a.safe_point != b.safe_point {
        a.safe_point < b.safe_point
    } else if !bytes_eq(a.state.as_slice(), b.state.as_slice()) {
        bytes_lt(a.state.as_slice(), b.state.as_slice())
    } else {
        !a.is_written && b.is_written
    }
}

/// The regions in order: the same regions, each as often as before, and
/// none after a later one.
pub fn sort_regions(regions: Vec<CachedRegion>) -> (sorted: Vec<CachedRegion>)
    ensures
        in_order(views(sorted@)),
        views(sorted@).to_multiset() == views(regions@).to_multiset(),
        sorted@.len() == regions@.len(),
{
    let ghost all = views(regions@);
    let mut rest = reversed(regions);
    let mut sorted: Vec<CachedRegion> = Vec::new();
    let ghost n = all.len();
    let mut i: usize = 0;
    proof {
        assert(views(rest@).reverse() =~= all);
        assert(views(rest@).reverse().len() == rest.len());
        assert(all.skip(0) =~= all);
        assert(all.take(0) =~= Seq::empty());
        assert(views(sorted@) =~= Seq::empty());
    }
    while rest.len() > 0
        invariant
            n == all.len(),
            n <= usize::MAX,
            i + rest.len() == n,
            sorted@.len() == i,
            views(rest@).reverse() == all.skip(i as int),
            in_order(views(sorted@)),
            views(sorted@).to_multiset() == all.take(i as int).to_multiset(),
        decreases rest.len(),
    {
        let ghost before_rest = views(rest@);
        let x = rest.pop().unwrap();
        proof {
            assert(views(rest@) =~= before_rest.drop_last());
            assert(before_rest.reverse()[0] == x@);
            assert(all[i as int] == x@);
            assert(before_rest.drop_last().reverse() =~= before_rest.reverse().drop_first());
            assert(views(rest@).reverse() =~= all.skip(i + 1));
            assert(all.take(i + 1) =~= all.take(i as int).push(x@));
            to_multiset_build(all.take(i as int), x@);
        }
        let ghost cur = views(sorted@);
        let mut p: usize = 0;
        while p < sorted.len() && !region_less(&x, &sorted[p])
            invariant
                p <= sorted.len(),
                cur == views(sorted@),
                forall|k: int| 0 <= k < p ==> !region_lt(x@, #[trigger] cur[k]),
            decreases sorted.len() - p,
        {
            p = p + 1;
        }
        sorted.insert(p, x);
        proof {
            let next = views(sorted@);
            assert(next =~= cur.insert(p as int, x@));
            to_multiset_insert(cur, p as int, x@);
            assert forall|a: int, b: int| 0 <= a < b < next.len() implies !region_lt(
                #[trigger] next[b],
                #[trigger] next[a],
            ) by {
                if b == p {
                    assert(next[a] == cur[a]);
                } else if a == p {
                    assert(next[b] == cur[b - 1]);
                    if b - 1 > p {
                        assert(!region_lt(cur[b - 1], cur[p as int]));
                    }
                    lemma_region_order_strict(x@, cur[p as int]);
                    if region_lt(cur[b - 1], x@) {
                        lemma_region_order_transitive(cur[p as int], cur[b - 1], x@);
                        lemma_region_order_strict(x@, cur[p as int]);
                    }
                } else {
                    let a0 = if a < p { a } else { a - 1 };
                    let b0 = if b < p { b } else { b - 1 };
                    assert(next[a] == cur[a0]);
                    assert(next[b] == cur[b0]);
                }
            }
        }
        i = i + 1;
    }
    proof {
        assert(all.take(n as int) =~= all);
    }
    sorted
}

/// What the status service shows of the cached regions, in order.
pub fn cached_regions(snapshots: &Vec<RegionSnapshot>) -> (shown_regions: Vec<CachedRegion>)
    requires
        forall|i: int|
            0 <= i < snapshots@.len() ==> is_data_key((#[trigger] snapshots@[i])@.start) && is_data_key(
                snapshots@[i]@.end,
            ),
    ensures
        in_order(views(shown_regions@)),
        views(shown_regions@).to_multiset() == views(snapshots@).map_values(
            |s: SnapshotView| shown(s),
        ).to_multiset(),
        shown_regions@.len() == snapshots@.len(),
{
    let mut list: Vec<CachedRegion> = Vec::new();
    let ghost wanted = views(snapshots@).map_values(|s: SnapshotView| shown(s));
    let mut i: usize = 0;
    proof {
        assert(views(list@) =~= wanted.take(0));
    }
    while i < snapshots.len()
        invariant
            i <= snapshots.len(),
            wanted == views(snapshots@).map_values(|s: SnapshotView| shown(s)),
            views(list@) == wanted.take(i as int),
            forall|k: int|
                0 <= k < snapshots@.len() ==> is_data_key((#[trigger] snapshots@[k])@.start)
                    && is_data_key(snapshots@[k]@.end),
        decreases snapshots.len() - i,
    {
        let region = cached_region(&snapshots[i]);
        proof {
            lemma_views_push(list@, region);
            assert(wanted.take(i + 1) =~= wanted.take(i as int).push(region@));
        }
        list.push(region);
        i = i + 1;
    }
    proof {
        assert(wanted.take(wanted.len() as int) =~= wanted);
    }
    sort_regions(list)
}

} // verus!
