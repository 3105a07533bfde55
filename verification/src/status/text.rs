//! Texts as byte strings.

use vstd::prelude::*;

verus! {

/// The bytes of a text of ASCII characters.
pub open spec fn ascii(s: Seq<char>) -> Seq<u8> {
    Seq::new(s.len(), |i: int| s[i] as u8)
}

/// The bytes of a text of ASCII characters.
pub fn text(s: &str) -> (b: &[u8])
    requires
        s.is_ascii(),
    ensures
        b@ == ascii(s@),
{
    proof {
        vstd::string::is_ascii_spec_bytes(s);
    }
    s.as_bytes()
}

/// Whether `s` begins with `prefix`.
pub open spec fn has_prefix(s: Seq<u8>, prefix: Seq<u8>) -> bool {
    prefix.len() <= s.len() && s.subrange(0, prefix.len() as int) == prefix
}

/// Whether `s` begins with `prefix`.
pub fn starts_with(s: &[u8], prefix: &[u8]) -> (r: bool)
    ensures
        r == has_prefix(s@, prefix@),
{
    if prefix.len() > s.len() {
        return false;
    }
    let mut i: usize = 0;
    while i < prefix.len()
        invariant
            i <= prefix.len(),
            prefix.len() <= s.len(),
            s@.subrange(0, i as int) == prefix@.subrange(0, i as int),
        decreases prefix.len() - i,
    {
        if s[i] != prefix[i] {
            assert(s@.subrange(0, prefix.len() as int)[i as int] != prefix@[i as int]);
            return false;
        }
        i = i + 1;
        assert(s@.subrange(0, i as int) =~= s@.subrange(0, i - 1).push(s@[i - 1]));
        assert(prefix@.subrange(0, i as int) =~= prefix@.subrange(0, i - 1).push(prefix@[i - 1]));
    }
    assert(prefix@.subrange(0, prefix.len() as int) =~= prefix@);
    true
}

/// Whether `part` stands in `s` at place `at`.
pub open spec fn occurs_at(s: Seq<u8>, part: Seq<u8>, at: int) -> bool {
    0 <= at && at + part.len() <= s.len() && s.subrange(at, at + part.len()) == part
}

/// Whether `part` stands somewhere in `s`.
pub open spec fn has_part(s: Seq<u8>, part: Seq<u8>) -> bool {
    exists|at: int| occurs_at(s, part, at)
}

/// Whether `part` stands in `s` at place `at`.
pub fn matches_at(s: &[u8], part: &[u8], at: usize) -> (r: bool)
    ensures
        r == occurs_at(s@, part@, at as int),
{
    if at > s.len() || part.len() > s.len() - at {
        return false;
    }
    let mut i: usize = 0;
    while i < part.len()
        invariant
            i <= part.len(),
            at + part.len() <= s.len(),
            s@.subrange(at as int, at + i) == part@.subrange(0, i as int),
        decreases part.len() - i,
    {
        if s[at + i] != part[i] {
            assert(s@.subrange(at as int, at + part.len())[i as int] != part@[i as int]);
            return false;
        }
        i = i + 1;
        assert(s@.subrange(at as int, at + i) =~= s@.subrange(at as int, at + i - 1).push(s@[at + i - 1]));
        assert(part@.subrange(0, i as int) =~= part@.subrange(0, i - 1).push(part@[i - 1]));
    }
    assert(part@.subrange(0, part.len() as int) =~= part@);
    true
}

/// Whether `part` stands somewhere in `s`.
pub fn contains(s: &[u8], part: &[u8]) -> (r: bool)
    ensures
        r == has_part(s@, part@),
{
    if part.len() > s.len() {
        return false;
    }
    let last: usize = s.len() - part.len();
    let mut at: usize = 0;
    loop
        invariant
            at <= last,
            last == s.len() - part.len(),
            part.len() <= s.len(),
            forall|k: int| 0 <= k < at ==> !occurs_at(s@, part@, k),
        decreases last - at,
    {
        if matches_at(s, part, at) {
            return true;
        }
        if at == last {
            return false;
        }
        at = at + 1;
    }
}

/// Whether the bytes are a text in UTF-8. The call is `std::str::from_utf8`,
/// which accepts exactly the well-formed byte strings.
#[verifier::external_body]
pub(crate) fn is_utf8(bytes: &[u8]) -> (r: bool)
    ensures
        r == vstd::utf8::valid_utf8(bytes@),
{
    std::str::from_utf8(bytes).is_ok()
}

/// Appends the bytes of `more` to `to`.
pub fn append(to: &mut Vec<u8>, more: &[u8])
    ensures
        final(to)@ == old(to)@ + more@,
{
    let ghost before = to@;
    let mut i: usize = 0;
    assert(before + more@.subrange(0, 0) =~= before);
    while i < more.len()
        invariant
            i <= more.len(),
            to@ == before + more@.subrange(0, i as int),
        decreases more.len() - i,
    {
        to.push(more[i]);
        i = i + 1;
        assert(before + more@.subrange(0, i as int) =~= (before + more@.subrange(0, i - 1)).push(
            more@[i - 1],
        ));
    }
    assert(more@.subrange(0, more.len() as int) =~= more@);
}

/// The end of the item that begins at `from` in a list whose items the
/// byte `sep` parts.
pub open spec fn item_end(h: Seq<u8>, from: int, sep: u8) -> int
    decreases h.len() - from,
{
    if from >= h.len() {
        h.len() as int
    } else if h[from] == sep {
        from
    } else {
        item_end(h, from + 1, sep)
    }
}

/// The end of an item lies between its beginning and the end of the list.
pub proof fn lemma_item_end(h: Seq<u8>, from: int, sep: u8)
    requires
        0 <= from <= h.len(),
    ensures
        from <= item_end(h, from, sep) <= h.len(),
    decreases h.len() - from,
{
    if from < h.len() && h[from] != sep {
        lemma_item_end(h, from + 1, sep);
    }
}

/// The bytes of `h` between `from` and `to`.
pub fn piece(h: &[u8], from: usize, to: usize) -> (r: Vec<u8>)
    requires
        from <= to <= h.len(),
    ensures
        r@ == h@.subrange(from as int, to as int),
{
    let mut r: Vec<u8> = Vec::new();
    let mut i: usize = from;
    assert(h@.subrange(from as int, from as int) =~= Seq::empty());
    while i < to
        invariant
            from <= i <= to,
            to <= h.len(),
            r@ == h@.subrange(from as int, i as int),
        decreases to - i,
    {
        r.push(h[i]);
        i = i + 1;
        assert(h@.subrange(from as int, i as int) =~= h@.subrange(from as int, i - 1).push(h@[i - 1]));
    }
    r
}

/// The decimal digits of a number, without leading zeros.
pub open spec fn decimal_of(n: nat) -> Seq<u8>
    decreases n,
{
    if n < 10 {
        seq![(48 + n) as u8]
    } else {
        decimal_of(n / 10).push((48 + n % 10) as u8)
    }
}

/// The decimal digits of a number, without leading zeros.
pub fn decimal(n: u64) -> (r: Vec<u8>)
    ensures
        r@ == decimal_of(n as nat),
{
    let mut digits: Vec<u8> = Vec::new();
    let mut m: u64 = n;
    assert(decimal_of(n as nat) + digits@.reverse() =~= decimal_of(n as nat));
    while m >= 10
        invariant
            decimal_of(n as nat) == decimal_of(m as nat) + digits@.reverse(),
        decreases m,
    {
        let d: u8 = 48 + (m % 10) as u8;
        proof {
            assert(digits@.push(d).reverse() =~= seq![d] + digits@.reverse());
            assert(decimal_of((m / 10) as nat).push(d) + digits@.reverse() =~= decimal_of((m / 10) as nat)
                + (seq![d] + digits@.reverse()));
        }
        digits.push(d);
        m = m / 10;
    }
    let d: u8 = 48 + m as u8;
    proof {
        assert(digits@.push(d).reverse() =~= seq![d] + digits@.reverse());
    }
    digits.push(d);
    crate::vecs::reversed(digits)
}

} // verus!
