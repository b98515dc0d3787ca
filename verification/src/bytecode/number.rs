//! Numbers: IEEE-754 binary64 values, held by their bit pattern.
//!
//! Bit 63 is the sign, bits 52 to 62 the exponent, bits 0 to 51 the
//! fraction. A pattern whose exponent is all ones and whose fraction is not
//! zero is not a number (NaN). Negation and comparison depend on the
//! pattern alone and are computed here; the arithmetic that rounds is the
//! caller's.

use vstd::prelude::*;

verus! {

/// The sign bit of a pattern.
pub const SIGN_BIT: u64 = 0x8000_0000_0000_0000;

/// The pattern of positive infinity: every larger magnitude is a NaN.
pub const INFINITY_BITS: u64 = 0x7FF0_0000_0000_0000;

/// An arithmetic operation whose result has to be rounded.
#[derive(Debug, Clone, Copy, PartialEq, Eq, Structural)]
pub enum NumberOp {
    Add,
    Sub,
    Mul,
    Div,
}

/// The pattern without its sign.
pub open spec fn magnitude(bits: u64) -> u64 {
    if bits >= SIGN_BIT {
        (bits - SIGN_BIT) as u64
    } else {
        bits
    }
}

/// Whether the sign bit is set.
pub open spec fn is_negative(bits: u64) -> bool {
    bits >= SIGN_BIT
}

/// Whether the pattern is a NaN.
pub open spec fn is_nan(bits: u64) -> bool {
    magnitude(bits) > INFINITY_BITS
}

/// Whether the pattern is one of the two zeros.
pub open spec fn is_zero(bits: u64) -> bool {
    magnitude(bits) == 0
}

/// The pattern of the negated number: the sign bit is flipped, nothing else.
pub open spec fn negated(bits: u64) -> u64 {
    if bits >= SIGN_BIT {
        (bits - SIGN_BIT) as u64
    } else {
        (bits + SIGN_BIT) as u64
    }
}

/// IEEE equality: a NaN equals nothing, the two zeros equal each other, and
/// every other number equals only its own pattern.
pub open spec fn number_eq(a: u64, b: u64) -> bool {
    !is_nan(a) && !is_nan(b) && (a == b || (is_zero(a) && is_zero(b)))
}

/// IEEE order: nothing is less than or greater than a NaN, the two zeros are
/// not ordered against each other, a negative number is less than a
/// positive one, and numbers of one sign are ordered by magnitude.
pub open spec fn number_lt(a: u64, b: u64) -> bool {
    if is_nan(a) || is_nan(b) || (is_zero(a) && is_zero(b)) {
        false
    } else if is_negative(a) != is_negative(b) {
        is_negative(a)
    } else if is_negative(a) {
        magnitude(a) > magnitude(b)
    } else {
        magnitude(a) < magnitude(b)
    }
}

fn magnitude_of(bits: u64) -> (m: u64)
    ensures
        m == magnitude(bits),
{
    if bits >= SIGN_BIT {
        bits - SIGN_BIT
    } else {
        bits
    }
}

/// Negates a number.
pub fn negate(bits: u64) -> (r: u64)
    ensures
        r == negated(bits),
{
    if bits >= SIGN_BIT {
        bits - SIGN_BIT
    } else {
        bits + SIGN_BIT
    }
}

/// Whether two numbers are equal.
pub fn equal(a: u64, b: u64) -> (r: bool)
    ensures
        r == number_eq(a, b),
{
    let ma: u64 = magnitude_of(a);
    let mb: u64 = magnitude_of(b);
    ma <= INFINITY_BITS && mb <= INFINITY_BITS && (a == b || (ma == 0 && mb == 0))
}

/// Whether `a` is less than `b`.
pub fn less(a: u64, b: u64) -> (r: bool)
    ensures
        r == number_lt(a, b),
{
    let ma: u64 = magnitude_of(a);
    let mb: u64 = magnitude_of(b);
    if ma > INFINITY_BITS || mb > INFINITY_BITS || (ma == 0 && mb == 0) {
        false
    } else if (a >= SIGN_BIT) != (b >= SIGN_BIT) {
        a >= SIGN_BIT
    } else if a >= SIGN_BIT {
        ma > mb
    } else {
        ma < mb
    }
}

} // verus!
