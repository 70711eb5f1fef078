//! Coordinates.
//!
//! A coordinate is an IEEE 754 binary32 number, held as its 32 bits: bit 31 is
//! the sign, bits 30 to 23 the exponent, bits 22 to 0 the fraction. Among the
//! finite numbers the order of the values is the order of their ranks.

use vstd::prelude::*;

verus! {

/// The bits of a coordinate without its sign.
pub open spec fn magnitude(bits: u32) -> u32 {
    bits & 0x7fff_ffffu32
}

/// Whether the sign bit of a coordinate is set.
pub open spec fn negative(bits: u32) -> bool {
    bits & 0x8000_0000u32 != 0u32
}

/// A coordinate is finite unless every bit of its exponent is set, which
/// marks the infinities and the values that are not numbers.
pub open spec fn finite(bits: u32) -> bool {
    bits & 0x7f80_0000u32 != 0x7f80_0000u32
}

/// The place of a coordinate on the number line: the magnitude, counted
/// downwards from zero where the sign is set. Two finite coordinates denote
/// the same number exactly when their ranks are equal, so both zeros have
/// rank 0, and one is below the other exactly when its rank is smaller.
pub open spec fn rank(bits: u32) -> int {
    if negative(bits) {
        -(magnitude(bits) as int)
    } else {
        magnitude(bits) as int
    }
}

/// Two coordinates of one rank have the same bits, unless both are zeros.
pub proof fn rank_determines_bits(a: u32, b: u32)
    requires
        rank(a) == rank(b),
        rank(a) != 0,
    ensures
        a == b,
{
    assert(a & 0x7fff_ffffu32 <= 0x7fff_ffffu32) by (bit_vector);
    assert(b & 0x7fff_ffffu32 <= 0x7fff_ffffu32) by (bit_vector);
    assert((a & 0x7fff_ffffu32) == (b & 0x7fff_ffffu32) && ((a & 0x8000_0000u32 != 0u32) == (b
        & 0x8000_0000u32 != 0u32)) ==> a == b) by (bit_vector);
}

/// The zero with the sign bit set.
pub open spec fn negative_zero(bits: u32) -> bool {
    bits == 0x8000_0000u32
}

/// Two coordinates of one rank have the same bits, unless one of them is
/// the negative zero.
pub proof fn rank_determines_value(a: u32, b: u32)
    requires
        rank(a) == rank(b),
        !negative_zero(a),
        !negative_zero(b),
    ensures
        a == b,
{
    if rank(a) != 0 {
        rank_determines_bits(a, b);
    } else {
        assert(a & 0x7fff_ffffu32 == 0u32 ==> a == 0u32 || a == 0x8000_0000u32) by (bit_vector);
        assert(b & 0x7fff_ffffu32 == 0u32 ==> b == 0u32 || b == 0x8000_0000u32) by (bit_vector);
    }
}

/// Tells whether a coordinate is finite.
pub fn is_finite(bits: u32) -> (r: bool)
    ensures
        r == finite(bits),
{
    bits & 0x7f80_0000u32 != 0x7f80_0000u32
}

/// Computes the rank of a coordinate.
pub fn rank_of(bits: u32) -> (r: i64)
    ensures
        r == rank(bits),
{
    assert(bits & 0x7fff_ffffu32 <= 0x7fff_ffffu32) by (bit_vector);
    let size: i64 = (bits & 0x7fff_ffffu32) as i64;
    if bits & 0x8000_0000u32 != 0u32 {
        -size
    } else {
        size
    }
}

} // verus!
