//! Classification of IEEE 754 binary64 bit patterns.
//!
//! The evaluator stores every numeric value as the 64 bits of an IEEE 754
//! double-precision number: one sign bit, an 11-bit biased exponent and a
//! 52-bit mantissa. Every predicate the evaluator's policy decisions need
//! (zero test, sign test, finiteness, subnormality, integrality, parity of
//! the truncation) is a pure function of those bits, so it is computed and
//! verified here; only the arithmetic itself is performed by the caller.
use vstd::prelude::*;

verus! {

/// The bit pattern of the value one.
pub const ONE_BITS: u64 = 0x3FF0_0000_0000_0000;

/// The sign bit, as 0 or 1.
pub open spec fn spec_sign(b: u64) -> u64 {
    b >> 63
}

/// The 11-bit biased exponent field.
pub open spec fn spec_exponent(b: u64) -> u64 {
    (b >> 52) & 0x7FF
}

/// The 52-bit mantissa field.
pub open spec fn spec_mantissa(b: u64) -> u64 {
    b & 0xF_FFFF_FFFF_FFFF
}

/// The pattern encodes a NaN: exponent field all ones, mantissa nonzero.
pub open spec fn spec_is_nan(b: u64) -> bool {
    spec_exponent(b) == 0x7FF && spec_mantissa(b) != 0
}

/// The pattern encodes a positive or negative infinity.
pub open spec fn spec_is_infinite(b: u64) -> bool {
    spec_exponent(b) == 0x7FF && spec_mantissa(b) == 0
}

/// The pattern encodes a zero of either sign. This is exactly the set of
/// patterns whose value compares equal to zero.
pub open spec fn spec_is_zero(b: u64) -> bool {
    spec_exponent(b) == 0 && spec_mantissa(b) == 0
}

/// The pattern encodes a subnormal number: too small in magnitude to carry
/// full precision, yet not zero.
pub open spec fn spec_is_subnormal(b: u64) -> bool {
    spec_exponent(b) == 0 && spec_mantissa(b) != 0
}

/// The encoded value is strictly less than zero. A negative zero and a NaN
/// with its sign bit set both compare false against `< 0`.
pub open spec fn spec_is_negative(b: u64) -> bool {
    spec_sign(b) == 1 && !spec_is_zero(b) && !spec_is_nan(b)
}

/// The bit pattern of the negated value: IEEE 754 negation flips exactly
/// the sign bit, for every class of value.
pub open spec fn spec_negate(b: u64) -> u64 {
    b ^ 0x8000_0000_0000_0000
}

/// The fractional part of the encoded value is nonzero, in the sense of
/// comparing the value minus its truncation against zero. For an infinity
/// or a NaN that difference is NaN, and a NaN compares unequal to zero, so
/// the answer there is true.
pub open spec fn spec_fract_nonzero(b: u64) -> bool {
    if spec_exponent(b) == 0x7FF {
        true
    } else if spec_is_zero(b) {
        false
    } else if spec_exponent(b) < 1023 {
        // magnitude strictly below one, so the value is its own fraction
        true
    } else if spec_exponent(b) >= 1075 {
        // unbiased exponent of 52 or more: every such value is an integer
        false
    } else {
        let shift = (1075 - spec_exponent(b)) as u64;
        spec_mantissa(b) & (((1u64 << shift) - 1) as u64) != 0
    }
}

/// Whether truncating the encoded value to a signed 64-bit integer, the
/// way an `as` cast does, yields an even number. The cast truncates toward
/// zero, saturates at the ends of the 64-bit range (the maximum is odd,
/// the minimum even) and sends NaN to zero.
pub open spec fn spec_trunc_even(b: u64) -> bool {
    if spec_is_nan(b) {
        true
    } else if spec_exponent(b) < 1023 {
        // magnitude below one truncates to zero
        true
    } else if spec_exponent(b) >= 1086 {
        // magnitude of two to the 63rd or beyond, infinities included:
        // positive values saturate to the odd maximum, negative values to
        // the even minimum
        spec_sign(b) == 1
    } else if spec_exponent(b) > 1075 {
        // an integer scaled by at least one factor of two
        true
    } else {
        // the truncated magnitude is the 53-bit significand shifted right
        let shift = (1075 - spec_exponent(b)) as u64;
        ((0x10_0000_0000_0000u64 | spec_mantissa(b)) >> shift) & 1 == 0
    }
}

/// Negation flips only the sign bit, so it leaves the exponent and
/// mantissa fields, and with them every class but the sign, unchanged.
pub proof fn lemma_negate_fields(b: u64)
    ensures
        spec_exponent(spec_negate(b)) == spec_exponent(b),
        spec_mantissa(spec_negate(b)) == spec_mantissa(b),
{
    assert(((b ^ 0x8000_0000_0000_0000u64) >> 52) & 0x7FF == (b >> 52) & 0x7FF) by (bit_vector);
    assert((b ^ 0x8000_0000_0000_0000u64) & 0xF_FFFF_FFFF_FFFF == b & 0xF_FFFF_FFFF_FFFF)
        by (bit_vector);
}

/// Sign bit of a pattern, as 0 or 1.
pub fn sign(b: u64) -> (r: u64)
    ensures
        r == spec_sign(b),
{
    b >> 63
}

/// Biased exponent field of a pattern.
pub fn exponent(b: u64) -> (r: u64)
    ensures
        r == spec_exponent(b),
{
    (b >> 52) & 0x7FF
}

/// Mantissa field of a pattern.
pub fn mantissa(b: u64) -> (r: u64)
    ensures
        r == spec_mantissa(b),
{
    b & 0xF_FFFF_FFFF_FFFF
}

/// Decides whether the pattern encodes a NaN.
pub fn is_nan(b: u64) -> (r: bool)
    ensures
        r == spec_is_nan(b),
{
    exponent(b) == 0x7FF && mantissa(b) != 0
}

/// Decides whether the pattern encodes an infinity.
pub fn is_infinite(b: u64) -> (r: bool)
    ensures
        r == spec_is_infinite(b),
{
    exponent(b) == 0x7FF && mantissa(b) == 0
}

/// Decides whether the pattern encodes a zero of either sign.
pub fn is_zero(b: u64) -> (r: bool)
    ensures
        r == spec_is_zero(b),
{
    exponent(b) == 0 && mantissa(b) == 0
}

/// Decides whether the pattern encodes a subnormal number.
pub fn is_subnormal(b: u64) -> (r: bool)
    ensures
        r == spec_is_subnormal(b),
{
    exponent(b) == 0 && mantissa(b) != 0
}

/// Decides whether the encoded value is strictly negative.
pub fn is_negative(b: u64) -> (r: bool)
    ensures
        r == spec_is_negative(b),
{
    sign(b) == 1 && !is_zero(b) && !is_nan(b)
}

/// Negates the encoded value by flipping the sign bit.
pub fn negate(b: u64) -> (r: u64)
    ensures
        r == spec_negate(b),
{
    b ^ 0x8000_0000_0000_0000
}

/// Decides whether the encoded value has a nonzero fractional part.
pub fn fract_nonzero(b: u64) -> (r: bool)
    ensures
        r == spec_fract_nonzero(b),
{
    let e = exponent(b);
    if e == 0x7FF {
        true
    } else if is_zero(b) {
        false
    } else if e < 1023 {
        true
    } else if e >= 1075 {
        false
    } else {
        let shift = 1075 - e;
        assert(1 <= shift < 64);
        assert(1u64 << shift >= 1) by (bit_vector)
            requires
                1 <= shift < 64,
        ;
        mantissa(b) & ((1u64 << shift) - 1) != 0
    }
}

/// Decides whether the value, truncated to a signed 64-bit integer the way
/// an `as` cast truncates, is even.
pub fn trunc_even(b: u64) -> (r: bool)
    ensures
        r == spec_trunc_even(b),
{
    let e = exponent(b);
    if is_nan(b) {
        true
    } else if e < 1023 {
        true
    } else if e >= 1086 {
        sign(b) == 1
    } else if e > 1075 {
        true
    } else {
        let shift = 1075 - e;
        assert(shift < 64);
        ((0x10_0000_0000_0000 | mantissa(b)) >> shift) & 1 == 0
    }
}

} // verus!
