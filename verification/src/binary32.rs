//! Single-precision numbers, held by their IEEE 754 bit patterns.
//!
//! Genes, fitness scores and probabilities are carried through this crate as
//! `u32` bit patterns. The crate orders such values and tells the special ones
//! apart; it never does arithmetic on them.

use vstd::prelude::*;

verus! {

/// The bit that holds the sign.
pub const SIGN: u32 = 0x8000_0000;

/// Positive infinity. Every larger magnitude is not a number.
pub const INFINITY: u32 = 0x7F80_0000;

/// One half.
pub const HALF: u32 = 0x3F00_0000;

/// One.
pub const ONE: u32 = 0x3F80_0000;

/// The pattern without its sign bit.
pub open spec fn magnitude(bits: u32) -> int {
    if bits >= SIGN {
        bits - SIGN
    } else {
        bits as int
    }
}

/// Whether the pattern stands for no number at all.
pub open spec fn spec_is_nan(bits: u32) -> bool {
    magnitude(bits) > INFINITY
}

/// The place of a number among all numbers: of two patterns that are numbers,
/// the one with the smaller rank is the smaller number, and two patterns of
/// one rank are the same number. Both zeros have rank 0.
pub open spec fn rank(bits: u32) -> int {
    if bits >= SIGN {
        -magnitude(bits)
    } else {
        magnitude(bits)
    }
}

/// The smaller of two values. A value that is not a number gives way to the
/// other; of two equal numbers the first is kept.
pub open spec fn spec_lesser(a: u32, b: u32) -> u32 {
    if spec_is_nan(a) {
        b
    } else if spec_is_nan(b) {
        a
    } else if rank(b) < rank(a) {
        b
    } else {
        a
    }
}

/// The larger of two values. A value that is not a number gives way to the
/// other; of two equal numbers the first is kept.
pub open spec fn spec_greater(a: u32, b: u32) -> u32 {
    if spec_is_nan(a) {
        b
    } else if spec_is_nan(b) {
        a
    } else if rank(a) < rank(b) {
        b
    } else {
        a
    }
}

/// Whether the value is a number between zero and one, both included.
pub open spec fn spec_is_probability(bits: u32) -> bool {
    !spec_is_nan(bits) && 0 <= rank(bits) <= ONE
}

/// Tells whether the pattern stands for no number at all.
#[verifier::when_used_as_spec(spec_is_nan)]
pub fn is_nan(bits: u32) -> (nan: bool)
    ensures
        nan == spec_is_nan(bits),
{
    if bits >= SIGN {
        bits - SIGN > INFINITY
    } else {
        bits > INFINITY
    }
}

/// Tells whether the first of two numbers is smaller than the second.
fn below(a: u32, b: u32) -> (less: bool)
    requires
        !spec_is_nan(a),
        !spec_is_nan(b),
    ensures
        less == (rank(a) < rank(b)),
{
    if a >= SIGN {
        if b >= SIGN {
            // Both are at most zero: the larger magnitude is the smaller number.
            b < a
        } else {
            // Only a negative zero is not below a value that is at least zero,
            // and only when that value is zero too.
            a > SIGN || b > 0
        }
    } else {
        b < SIGN && a < b
    }
}

/// The smaller of two values, as [`spec_lesser`] defines it.
#[verifier::when_used_as_spec(spec_lesser)]
pub fn lesser(a: u32, b: u32) -> (least: u32)
    ensures
        least == spec_lesser(a, b),
{
    if is_nan(a) {
        b
    } else if is_nan(b) {
        a
    } else if below(b, a) {
        b
    } else {
        a
    }
}

/// The larger of two values, as [`spec_greater`] defines it.
#[verifier::when_used_as_spec(spec_greater)]
pub fn greater(a: u32, b: u32) -> (most: u32)
    ensures
        most == spec_greater(a, b),
{
    if is_nan(a) {
        b
    } else if is_nan(b) {
        a
    } else if below(a, b) {
        b
    } else {
        a
    }
}

/// Tells whether the value is a number between zero and one, both included.
/// Negative zero counts as zero.
#[verifier::when_used_as_spec(spec_is_probability)]
pub fn is_probability(bits: u32) -> (valid: bool)
    ensures
        valid == spec_is_probability(bits),
{
    bits <= ONE || bits == SIGN
}

} // verus!
