//! A total order on IEEE-754 single-precision bit patterns, as plain integers.
//!
//! The collision routines compare penetration depths, projections and squared
//! distances. Those quantities are computed in floating point by the caller; the
//! selection logic of this crate sees each of them only through its order key.
use vstd::prelude::*;

verus! {

/// The sign bit of a single-precision bit pattern.
pub const SIGN_BIT: u32 = 0x8000_0000;

/// Whether the pattern has its sign bit set.
pub open spec fn is_negative(bits: u32) -> bool {
    bits >= SIGN_BIT
}

/// The pattern with its sign bit cleared: the magnitude bits.
pub open spec fn magnitude(bits: u32) -> int {
    if is_negative(bits) {
        bits - SIGN_BIT
    } else {
        bits as int
    }
}

/// An integer that orders bit patterns as the numbers they encode.
///
/// A sign-magnitude float grows with its magnitude bits, so the signed
/// magnitude orders all non-NaN patterns as the reals they stand for; the
/// two zeros both map to `0`.
pub open spec fn signed_value(bits: u32) -> int {
    if is_negative(bits) {
        -magnitude(bits)
    } else {
        magnitude(bits)
    }
}

/// The order key of a pattern: its signed value shifted into `u32`.
pub open spec fn key_of(bits: u32) -> int {
    SIGN_BIT + signed_value(bits)
}

/// Maps a single-precision bit pattern (`f32::to_bits`) to a `u32` that, for
/// non-NaN patterns, compares as the number does: `-0.0` and `0.0` get the
/// same key. A NaN pattern gets a key above that of infinity (positive sign)
/// or below that of negative infinity (negative sign), where the float
/// compares false with everything.
pub fn order_key(bits: u32) -> (r: u32)
    ensures
        r as int == key_of(bits),
{
    if bits >= SIGN_BIT {
        SIGN_BIT - (bits - SIGN_BIT)
    } else {
        SIGN_BIT + bits
    }
}

/// Keys compare exactly as the signed values of their patterns.
pub proof fn lemma_key_order(a: u32, b: u32)
    ensures
        key_of(a) < key_of(b) <==> signed_value(a) < signed_value(b),
        key_of(a) == key_of(b) <==> signed_value(a) == signed_value(b),
        0 <= key_of(a) <= u32::MAX,
{
}

} // verus!
