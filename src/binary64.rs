//! Doubles as the library holds them: IEEE-754 binary64 bit patterns.
//!
//! The library never computes with a double itself. Where compilation folds two
//! constants, or reads a decimal literal, it asks an implementation of
//! [`Binary64`], which the host supplies with its own floating-point unit. The
//! trait promises nothing, so every property proved of the library holds
//! whatever values these functions return.

use vstd::prelude::*;

verus! {

/// The bit pattern of `+0.0`.
pub const ZERO_BITS: u64 = 0;

/// The bit pattern of `-0.0`.
pub const NEG_ZERO_BITS: u64 = 0x8000_0000_0000_0000;

/// The bit pattern of `1.0`.
pub const ONE_BITS: u64 = 0x3ff0_0000_0000_0000;

/// The bit pattern of `0.75`.
pub const THREE_QUARTERS_BITS: u64 = 0x3fe8_0000_0000_0000;

/// The bit pattern of `4.0`.
pub const FOUR_BITS: u64 = 0x4010_0000_0000_0000;

/// The bit pattern of `100.0`.
pub const HUNDRED_BITS: u64 = 0x4059_0000_0000_0000;

/// Binary64 arithmetic on bit patterns, rounding to nearest as IEEE-754 prescribes.
pub trait Binary64 {
    /// The bits of `a + b`.
    fn add_bits(a: u64, b: u64) -> u64;

    /// The bits of `a - b`.
    fn sub_bits(a: u64, b: u64) -> u64;

    /// The bits of `a * b`.
    fn mul_bits(a: u64, b: u64) -> u64;

    /// The bits of `a / b`.
    fn div_bits(a: u64, b: u64) -> u64;

    /// The bits of the double nearest to a decimal literal `digit+ ('.' digit+)?`;
    /// for any other text, any bits.
    fn decimal_bits(literal: &str) -> u64;
}

/// A double compares equal to zero: `+0.0` or `-0.0`.
pub open spec fn is_zero_bits(b: u64) -> bool {
    b == ZERO_BITS || b == NEG_ZERO_BITS
}

/// A double compares equal to one.
pub open spec fn is_one_bits(b: u64) -> bool {
    b == ONE_BITS
}

/// IEEE-754 negation: the sign bit flipped, every other bit kept.
pub open spec fn neg_bits(b: u64) -> u64 {
    if b >= NEG_ZERO_BITS {
        (b - NEG_ZERO_BITS) as u64
    } else {
        (b + NEG_ZERO_BITS) as u64
    }
}

/// The bits of the negated double.
pub fn negate_bits(b: u64) -> (r: u64)
    ensures
        r == neg_bits(b),
{
    if b >= NEG_ZERO_BITS {
        b - NEG_ZERO_BITS
    } else {
        b + NEG_ZERO_BITS
    }
}

} // verus!
