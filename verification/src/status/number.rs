//! Reading numbers from text, the way the standard library reads them.

use vstd::prelude::*;
use crate::bytes::copy_bytes;
use crate::status::text::{ascii, text};

verus! {

/// Why a text is no number of the wanted type.
#[derive(Clone, Copy, Debug, PartialEq, Eq, Structural)]
pub enum IntError {
    /// The text is empty.
    Empty,
    /// The text holds a byte that is no digit, or a sign and nothing else.
    InvalidDigit,
    /// The number is too large for the type.
    PosOverflow,
    /// The number is too small for the type.
    NegOverflow,
}

impl IntError {
    /// What the error says.
    pub open spec fn message(self) -> Seq<u8> {
        match self {
            IntError::Empty => ascii("cannot parse integer from empty string"@),
            IntError::InvalidDigit => ascii("invalid digit found in string"@),
            IntError::PosOverflow => ascii("number too large to fit in target type"@),
            IntError::NegOverflow => ascii("number too small to fit in target type"@),
        }
    }

    /// What the error says.
    pub fn text(&self) -> (r: Vec<u8>)
        ensures
            r@ == self.message(),
    {
        proof {
            reveal_strlit("cannot parse integer from empty string");
            reveal_strlit("invalid digit found in string");
            reveal_strlit("number too large to fit in target type");
            reveal_strlit("number too small to fit in target type");
        }
        match self {
            IntError::Empty => copy_bytes(text("cannot parse integer from empty string")),
            IntError::InvalidDigit => copy_bytes(text("invalid digit found in string")),
            IntError::PosOverflow => copy_bytes(text("number too large to fit in target type")),
            IntError::NegOverflow => copy_bytes(text("number too small to fit in target type")),
        }
    }
}

/// The number that a byte stands for as a digit: a decimal digit, or with
/// `hex` also a letter from `a` to `f` in either case.
pub open spec fn digit_of(b: u8, hex: bool) -> Option<nat> {
    if 48 <= b <= 57 {
        Some((b - 48) as nat)
    } else if hex && 97 <= b <= 102 {
        Some((b - 87) as nat)
    } else if hex && 65 <= b <= 70 {
        Some((b - 55) as nat)
    } else {
        None
    }
}

/// The number with one more digit at its end.
pub open spec fn with_digit(n: nat, d: nat, hex: bool) -> nat {
    if hex { n * 16 + d } else { n * 10 + d }
}

/// The number that the digits from place `i` on make of `n`, read from the
/// left: the first byte that is no digit, or the first digit with which the
/// number outgrows `max`, ends the reading with its error.
pub open spec fn read_digits(s: Seq<u8>, hex: bool, max: nat, i: int, n: nat) -> Result<nat, IntError>
    decreases s.len() - i,
{
    if i >= s.len() || i < 0 {
        Ok(n)
    } else {
        match digit_of(s[i], hex) {
            None => Err(IntError::InvalidDigit),
            Some(d) => if with_digit(n, d, hex) > max {
                Err(IntError::PosOverflow)
            } else {
                read_digits(s, hex, max, i + 1, with_digit(n, d, hex))
            },
        }
    }
}

/// The number up to `max` that a text stands for: digits, which a `+` may
/// precede.
pub open spec fn unsigned_of(s: Seq<u8>, hex: bool, max: nat) -> Result<nat, IntError> {
    if s.len() == 0 {
        Err(IntError::Empty)
    } else {
        let from: int = if s[0] == 43 { 1 } else { 0 };
        if from >= s.len() {
            Err(IntError::InvalidDigit)
        } else {
            read_digits(s, hex, max, from, 0)
        }
    }
}

/// The number from `-min_magnitude` to `max` that a text stands for:
/// decimal digits, which a `+` or a `-` may precede.
pub open spec fn signed_of(s: Seq<u8>, min_magnitude: nat, max: nat) -> Result<int, IntError> {
    if s.len() == 0 {
        Err(IntError::Empty)
    } else if s[0] == 45 {
        if s.len() == 1 {
            Err(IntError::InvalidDigit)
        } else {
            match read_digits(s, false, min_magnitude, 1, 0) {
                Ok(n) => Ok(-(n as int)),
                Err(IntError::PosOverflow) => Err(IntError::NegOverflow),
                Err(e) => Err(e),
            }
        }
    } else {
        match unsigned_of(s, false, max) {
            Ok(n) => Ok(n as int),
            Err(e) => Err(e),
        }
    }
}

/// What reading digits gives never exceeds `max`.
pub proof fn lemma_read_digits_bound(s: Seq<u8>, hex: bool, max: nat, i: int, n: nat)
    requires
        n <= max,
    ensures
        read_digits(s, hex, max, i, n) is Ok ==> read_digits(s, hex, max, i, n).unwrap() <= max,
    decreases s.len() - i,
{
    if 0 <= i < s.len() {
        match digit_of(s[i], hex) {
            None => {},
            Some(d) => {
                if with_digit(n, d, hex) <= max {
                    lemma_read_digits_bound(s, hex, max, i + 1, with_digit(n, d, hex));
                }
            },
        }
    }
}

/// The number that a byte stands for as a digit.
fn digit(b: u8, hex: bool) -> (r: Option<u64>)
    ensures
        match r {
            Some(d) => digit_of(b, hex) == Some(d as nat) && d < 16,
            None => digit_of(b, hex) is None,
        },
{
    if 48 <= b && b <= 57 {
        Some((b - 48) as u64)
    } else if hex && 97 <= b && b <= 102 {
        Some((b - 87) as u64)
    } else if hex && 65 <= b && b <= 70 {
        Some((b - 55) as u64)
    } else {
        None
    }
}

/// Reads the digits of `s` from place `from` on.
fn read(s: &[u8], hex: bool, max: u64, from: usize) -> (r: Result<u64, IntError>)
    requires
        from <= s.len(),
    ensures
        match r {
            Ok(n) => read_digits(s@, hex, max as nat, from as int, 0) == Ok::<nat, IntError>(n as nat)
                && n <= max,
            Err(e) => read_digits(s@, hex, max as nat, from as int, 0) == Err::<nat, IntError>(e),
        },
{
    let mut n: u64 = 0;
    let mut i: usize = from;
    while i < s.len()
        invariant
            from <= i <= s.len(),
            n <= max,
            read_digits(s@, hex, max as nat, from as int, 0) == read_digits(
                s@,
                hex,
                max as nat,
                i as int,
                n as nat,
            ),
        decreases s.len() - i,
    {
        let d = match digit(s[i], hex) {
            Some(d) => d,
            None => {
                return Err(IntError::InvalidDigit);
            },
        };
        let shifted = if hex { n.checked_mul(16) } else { n.checked_mul(10) };
        let next = match shifted {
            Some(m) => m.checked_add(d),
            None => None,
        };
        match next {
            Some(v) => {
                if v > max {
                    return Err(IntError::PosOverflow);
                }
                n = v;
            },
            None => {
                return Err(IntError::PosOverflow);
            },
        }
        i = i + 1;
    }
    Ok(n)
}

/// The view of a number read or of the error.
pub open spec fn unsigned_view(r: Result<u64, IntError>) -> Result<nat, IntError> {
    match r {
        Ok(n) => Ok(n as nat),
        Err(e) => Err(e),
    }
}

/// Reads a text as `u64`, as `str::parse` does.
pub fn parse_u64(s: &[u8]) -> (r: Result<u64, IntError>)
    ensures
        unsigned_view(r) == unsigned_of(s@, false, u64::MAX as nat),
{
    if s.len() == 0 {
        return Err(IntError::Empty);
    }
    let from: usize = if s[0] == 43 { 1 } else { 0 };
    if from >= s.len() {
        return Err(IntError::InvalidDigit);
    }
    read(s, false, u64::MAX, from)
}

/// Reads a text as `i32`, as `str::parse` does.
pub fn parse_i32(s: &[u8]) -> (r: Result<i32, IntError>)
    ensures
        match r {
            Ok(n) => signed_of(s@, 2147483648, i32::MAX as nat) == Ok::<int, IntError>(n as int),
            Err(e) => signed_of(s@, 2147483648, i32::MAX as nat) == Err::<int, IntError>(e),
        },
{
    if s.len() == 0 {
        return Err(IntError::Empty);
    }
    if s[0] == 45 {
        if s.len() == 1 {
            return Err(IntError::InvalidDigit);
        }
        match read(s, false, 2147483648, 1) {
            Ok(n) => {
                let magnitude: i64 = n as i64;
                Ok((0 - magnitude) as i32)
            },
            Err(IntError::PosOverflow) => Err(IntError::NegOverflow),
            Err(e) => Err(e),
        }
    } else {
        let from: usize = if s[0] == 43 { 1 } else { 0 };
        if from >= s.len() {
            return Err(IntError::InvalidDigit);
        }
        match read(s, false, 2147483647, from) {
            Ok(n) => Ok(n as i32),
            Err(e) => Err(e),
        }
    }
}

/// Reads a text as a hexadecimal `usize`, as `usize::from_str_radix` does
/// with radix 16.
pub fn parse_hex(s: &[u8]) -> (r: Result<usize, IntError>)
    ensures
        match r {
            Ok(n) => unsigned_of(s@, true, usize::MAX as nat) == Ok::<nat, IntError>(n as nat),
            Err(e) => unsigned_of(s@, true, usize::MAX as nat) == Err::<nat, IntError>(e),
        },
{
    if s.len() == 0 {
        return Err(IntError::Empty);
    }
    let from: usize = if s[0] == 43 { 1 } else { 0 };
    if from >= s.len() {
        return Err(IntError::InvalidDigit);
    }
    match read(s, true, usize::MAX as u64, from) {
        Ok(n) => Ok(n as usize),
        Err(e) => Err(e),
    }
}

} // verus!
