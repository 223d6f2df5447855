//! Numbers: IEEE 754 binary64 values, held as their 64-bit patterns.
//!
//! The top bit is the sign; the other 63 bits, read as an integer, grow with
//! the magnitude of the value. Every pattern whose magnitude bits lie above
//! those of infinity is a NaN.

use vstd::prelude::*;

verus! {

/// An operation whose result is rounded: the interpreter asks its owner for
/// it, and takes the pattern that comes back as it is.
#[derive(Clone, Copy, Debug, PartialEq, Eq, Structural)]
pub enum ArithOp {
    Add,
    Subtract,
    Multiply,
    Divide,
}

/// The pattern that holds the sign bit alone (negative zero).
pub const SIGN_BIT: u64 = 0x8000_0000_0000_0000;

/// The pattern of positive infinity.
pub const INFINITY: u64 = 0x7ff0_0000_0000_0000;

/// The bits below the sign bit.
pub open spec fn magnitude(bits: u64) -> u64 {
    if bits >= SIGN_BIT {
        (bits - SIGN_BIT) as u64
    } else {
        bits
    }
}

/// Whether the pattern is a NaN.
pub open spec fn is_nan(bits: u64) -> bool {
    magnitude(bits) > INFINITY
}

/// The place of a pattern that is no NaN on the number line: patterns are
/// ordered as their places are, and both zeros stand at 0.
pub open spec fn rank(bits: u64) -> int {
    if bits >= SIGN_BIT {
        -(magnitude(bits) as int)
    } else {
        magnitude(bits) as int
    }
}

/// `a < b` on binary64: false whenever one side is a NaN.
pub open spec fn less(a: u64, b: u64) -> bool {
    !is_nan(a) && !is_nan(b) && rank(a) < rank(b)
}

/// `a <= b` on binary64: false whenever one side is a NaN.
pub open spec fn less_equal(a: u64, b: u64) -> bool {
    !is_nan(a) && !is_nan(b) && rank(a) <= rank(b)
}

/// `a == b` on binary64: a NaN equals nothing, the two zeros are equal.
pub open spec fn same(a: u64, b: u64) -> bool {
    !is_nan(a) && !is_nan(b) && rank(a) == rank(b)
}

/// The pattern with the sign bit flipped.
pub open spec fn negated(bits: u64) -> u64 {
    if bits >= SIGN_BIT {
        (bits - SIGN_BIT) as u64
    } else {
        (bits + SIGN_BIT) as u64
    }
}

/// Splits a pattern into its sign and the bits below it.
fn split(bits: u64) -> (parts: (bool, u64))
    ensures
        parts.0 == (bits >= SIGN_BIT),
        parts.1 == magnitude(bits),
{
    if bits >= SIGN_BIT {
        (true, bits - SIGN_BIT)
    } else {
        (false, bits)
    }
}

/// Whether `bits` is a NaN.
pub fn number_is_nan(bits: u64) -> (nan: bool)
    ensures
        nan == is_nan(bits),
{
    let (_, low) = split(bits);
    low > INFINITY
}

/// Decides `a < b`.
pub fn number_less(a: u64, b: u64) -> (result: bool)
    ensures
        result == less(a, b),
{
    let (a_negative, a_low) = split(a);
    let (b_negative, b_low) = split(b);
    if a_low > INFINITY || b_low > INFINITY {
        false
    } else if a_negative {
        if b_negative {
            a_low > b_low
        } else {
            a_low > 0 || b_low > 0
        }
    } else {
        !b_negative && a_low < b_low
    }
}

/// Decides `a == b`.
pub fn number_same(a: u64, b: u64) -> (result: bool)
    ensures
        result == same(a, b),
{
    let (a_negative, a_low) = split(a);
    let (b_negative, b_low) = split(b);
    if a_low > INFINITY || b_low > INFINITY {
        false
    } else if a_negative == b_negative {
        a_low == b_low
    } else {
        a_low == 0 && b_low == 0
    }
}

/// Decides `a <= b`.
pub fn number_less_equal(a: u64, b: u64) -> (result: bool)
    ensures
        result == less_equal(a, b),
{
    number_less(a, b) || number_same(a, b)
}

/// Flips the sign of `bits`.
pub fn number_negate(bits: u64) -> (result: u64)
    ensures
        result == negated(bits),
{
    if bits >= SIGN_BIT {
        bits - SIGN_BIT
    } else {
        bits + SIGN_BIT
    }
}

} // verus!
