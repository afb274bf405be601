//! Order and sign tests on IEEE 754 single-precision numbers held as their
//! 32-bit patterns.
//!
//! A pattern is a sign bit, eight exponent bits and 23 fraction bits. Read as
//! an unsigned integer, the low 31 bits of two numbers that are not NaN compare
//! like the numbers' absolute values, which is all these tests need.

use vstd::prelude::*;

verus! {

/// The pattern with only the sign bit set.
pub const SIGN_BIT: u32 = 0x8000_0000;

/// The pattern of positive infinity; a larger magnitude is a NaN.
pub const INFINITY: u32 = 0x7f80_0000;

/// The pattern of 2^-22, twice the machine epsilon.
pub const TOLERANCE: u32 = 0x3480_0000;

/// The low 31 bits: the pattern of the absolute value.
pub open spec fn magnitude(bits: u32) -> int {
    if bits >= SIGN_BIT {
        bits - SIGN_BIT
    } else {
        bits as int
    }
}

/// Whether the sign bit is set.
pub open spec fn sign_set(bits: u32) -> bool {
    bits >= SIGN_BIT
}

/// Whether the pattern is a NaN.
pub open spec fn is_nan(bits: u32) -> bool {
    magnitude(bits) > INFINITY
}

/// An integer that orders the patterns which are not NaN as their numbers are
/// ordered; both zeros have key 0.
pub open spec fn order_key(bits: u32) -> int {
    if sign_set(bits) {
        -magnitude(bits)
    } else {
        magnitude(bits)
    }
}

/// `a < b` as numbers: false as soon as one of them is a NaN.
pub open spec fn lt(a: u32, b: u32) -> bool {
    !is_nan(a) && !is_nan(b) && order_key(a) < order_key(b)
}

/// `a >= 0` as a number: false for a NaN, true for both zeros.
pub open spec fn ge_zero(a: u32) -> bool {
    !is_nan(a) && order_key(a) >= 0
}

/// `|a| < 2^-22`: the number counts as zero.
pub open spec fn near_zero(a: u32) -> bool {
    magnitude(a) < TOLERANCE
}

/// The pattern of the absolute value.
pub fn abs_bits(bits: u32) -> (m: u32)
    ensures
        m == magnitude(bits),
{
    if bits >= SIGN_BIT {
        bits - SIGN_BIT
    } else {
        bits
    }
}

/// Compares two numbers by their patterns.
pub fn less_than(a: u32, b: u32) -> (r: bool)
    ensures
        r == lt(a, b),
{
    let ma: u32 = abs_bits(a);
    let mb: u32 = abs_bits(b);
    if ma > INFINITY || mb > INFINITY {
        false
    } else if a >= SIGN_BIT {
        if b >= SIGN_BIT {
            ma > mb
        } else {
            ma > 0 || mb > 0
        }
    } else {
        b < SIGN_BIT && ma < mb
    }
}

/// Tests a number for `>= 0` by its pattern.
pub fn is_ge_zero(a: u32) -> (r: bool)
    ensures
        r == ge_zero(a),
{
    let m: u32 = abs_bits(a);
    m <= INFINITY && (a < SIGN_BIT || m == 0)
}

/// Tests whether a number is within the tolerance of zero.
pub fn is_near_zero(a: u32) -> (r: bool)
    ensures
        r == near_zero(a),
{
    abs_bits(a) < TOLERANCE
}

/// No number is less than itself, so a depth never beats an equal depth.
pub proof fn lemma_lt_irreflexive(a: u32)
    ensures
        !lt(a, a),
{
}

/// `lt` is transitive.
pub proof fn lemma_lt_transitive(a: u32, b: u32, c: u32)
    requires
        lt(a, b),
        lt(b, c),
    ensures
        lt(a, c),
{
}

} // verus!
