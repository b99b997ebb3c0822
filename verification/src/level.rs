//! The order of single-precision float samples, read from their bit patterns.
//!
//! A sample is carried as the IEEE 754 bit pattern of an `f32` (what
//! `f32::to_bits` returns). Bit 31 is the sign, bits 23..31 the exponent and
//! bits 0..23 the mantissa. Among patterns that are not NaN, the float order
//! is the order of the signed magnitudes: the magnitude is the pattern with
//! its sign bit cleared, and a set sign bit negates it (so both zeros sit at
//! zero). A comparison that involves a NaN is false.
use vstd::prelude::*;

verus! {

/// Bit pattern of the float zero (positive zero).
pub const ZERO_BITS: u32 = 0u32;

/// The pattern is a NaN: all exponent bits set and a nonzero mantissa.
pub open spec fn is_nan_bits(bits: u32) -> bool {
    (bits & 0x7f80_0000u32) == 0x7f80_0000u32 && (bits & 0x007f_ffffu32) != 0
}

/// The signed magnitude by which non-NaN patterns are ordered.
pub open spec fn order_key(bits: u32) -> int {
    if (bits & 0x8000_0000u32) != 0 {
        -((bits & 0x7fff_ffffu32) as int)
    } else {
        (bits & 0x7fff_ffffu32) as int
    }
}

/// `a > b` for the floats whose patterns are `a` and `b`.
pub open spec fn greater(a: u32, b: u32) -> bool {
    !is_nan_bits(a) && !is_nan_bits(b) && order_key(a) > order_key(b)
}

/// `a >= b` for the floats whose patterns are `a` and `b`.
pub open spec fn at_least(a: u32, b: u32) -> bool {
    !is_nan_bits(a) && !is_nan_bits(b) && order_key(a) >= order_key(b)
}

/// Whether the pattern is a NaN.
pub fn is_nan(bits: u32) -> (r: bool)
    ensures
        r == is_nan_bits(bits),
        r == (exponent_field(bits) == 0xffu32 && mantissa_field(bits) != 0u32),
{
    proof {
        nan_is_full_exponent_with_mantissa(bits);
    }
    (bits & 0x7f80_0000u32) == 0x7f80_0000u32 && (bits & 0x007f_ffffu32) != 0
}

/// The signed magnitude of a pattern: the pattern itself when the sign bit
/// is clear, and minus the pattern with its sign bit cleared otherwise.
pub fn key_of(bits: u32) -> (k: i64)
    ensures
        k == order_key(bits),
        bits < 0x8000_0000u32 ==> k == bits,
        bits >= 0x8000_0000u32 ==> k == 0x8000_0000u32 - bits,
{
    proof {
        order_key_is_signed_magnitude(bits);
    }
    let magnitude: i64 = (bits & 0x7fff_ffffu32) as i64;
    if (bits & 0x8000_0000u32) != 0 {
        -magnitude
    } else {
        magnitude
    }
}

/// Whether the float with pattern `a` is greater than the float with
/// pattern `b`.
pub fn exceeds(a: u32, b: u32) -> (r: bool)
    ensures
        r == greater(a, b),
        is_nan_bits(a) || is_nan_bits(b) ==> !r,
        !is_nan_bits(a) && !is_nan_bits(b) ==> (r <==> ieee_greater(a, b)),
{
    proof {
        if !is_nan_bits(a) && !is_nan_bits(b) {
            greater_is_ieee_order(a, b);
        }
    }
    !is_nan(a) && !is_nan(b) && key_of(a) > key_of(b)
}


/// The sign bit of a pattern.
pub open spec fn sign_field(b: u32) -> u32 {
    b >> 31u32
}

/// The exponent field of a pattern.
pub open spec fn exponent_field(b: u32) -> u32 {
    (b >> 23u32) & 0xffu32
}

/// The mantissa field of a pattern.
pub open spec fn mantissa_field(b: u32) -> u32 {
    b & 0x007f_ffffu32
}

/// `a > b` for IEEE 754 single-precision values, read from their fields:
/// the two zeros are equal; a value with the sign clear is above one with
/// the sign set; among values with the sign clear the larger exponent, then
/// the larger mantissa, is the greater; among values with the sign set it is
/// the other way round.
pub open spec fn ieee_greater(a: u32, b: u32) -> bool {
    let a_zero = exponent_field(a) == 0 && mantissa_field(a) == 0;
    let b_zero = exponent_field(b) == 0 && mantissa_field(b) == 0;
    if a_zero && b_zero {
        false
    } else if sign_field(a) == 0 && sign_field(b) == 0 {
        exponent_field(a) > exponent_field(b) || (exponent_field(a) == exponent_field(b)
            && mantissa_field(a) > mantissa_field(b))
    } else if sign_field(a) == 0 {
        true
    } else if sign_field(b) == 0 {
        false
    } else {
        exponent_field(a) < exponent_field(b) || (exponent_field(a) == exponent_field(b)
            && mantissa_field(a) < mantissa_field(b))
    }
}

/// How a pattern splits into its fields.
proof fn lemma_fields(b: u32)
    ensures
        b & 0x7fff_ffffu32 == ((b >> 23u32) & 0xffu32) * 0x80_0000u32 + (b & 0x007f_ffffu32),
        (b & 0x8000_0000u32 != 0) == (b >> 31u32 == 1u32),
        b >> 31u32 <= 1u32,
        (b >> 23u32) & 0xffu32 <= 0xffu32,
        b & 0x007f_ffffu32 < 0x80_0000u32,
        b < 0x8000_0000u32 ==> b & 0x7fff_ffffu32 == b && b & 0x8000_0000u32 == 0u32,
        b >= 0x8000_0000u32 ==> b & 0x7fff_ffffu32 == b - 0x8000_0000u32 && b & 0x8000_0000u32
            != 0u32,
{
    assert(b & 0x7fff_ffffu32 == ((b >> 23u32) & 0xffu32) * 0x80_0000u32 + (b & 0x007f_ffffu32))
        by (bit_vector);
    assert((b & 0x8000_0000u32 != 0) == (b >> 31u32 == 1u32)) by (bit_vector);
    assert(b >> 31u32 <= 1u32) by (bit_vector);
    assert((b >> 23u32) & 0xffu32 <= 0xffu32) by (bit_vector);
    assert(b & 0x007f_ffffu32 < 0x80_0000u32) by (bit_vector);
    assert(b < 0x8000_0000u32 ==> b & 0x7fff_ffffu32 == b && b & 0x8000_0000u32 == 0u32)
        by (bit_vector);
    assert(b >= 0x8000_0000u32 ==> b & 0x7fff_ffffu32 == b - 0x8000_0000u32 && b & 0x8000_0000u32
        != 0u32) by (bit_vector);
}

/// The order key of a pattern with the sign bit clear is the pattern
/// itself; with the sign bit set it is minus the pattern with that bit
/// cleared. So on patterns with the sign clear, a larger pattern is a larger
/// key.
pub proof fn order_key_is_signed_magnitude(b: u32)
    ensures
        b < 0x8000_0000u32 ==> order_key(b) == b,
        b >= 0x8000_0000u32 ==> order_key(b) == 0x8000_0000u32 - b,
{
    lemma_fields(b);
}

/// Between patterns that are not NaN, `greater` is the order of the IEEE 754
/// values they denote.
pub proof fn greater_is_ieee_order(a: u32, b: u32)
    requires
        !is_nan_bits(a),
        !is_nan_bits(b),
    ensures
        greater(a, b) <==> ieee_greater(a, b),
{
    lemma_fields(a);
    lemma_fields(b);
}

/// A comparison that involves a NaN is false.
pub proof fn nan_is_never_greater(a: u32, b: u32)
    requires
        is_nan_bits(a) || is_nan_bits(b),
    ensures
        !greater(a, b),
        !at_least(a, b),
{
}


/// A pattern is a NaN exactly when its exponent field is all ones and its
/// mantissa field is not zero.
pub proof fn nan_is_full_exponent_with_mantissa(b: u32)
    ensures
        is_nan_bits(b) <==> (exponent_field(b) == 0xffu32 && mantissa_field(b) != 0u32),
{
    assert(((b & 0x7f80_0000u32) == 0x7f80_0000u32) == (((b >> 23u32) & 0xffu32) == 0xffu32))
        by (bit_vector);
}

} // verus!
