//! Single-precision values as their IEEE 754 bit patterns.
//!
//! The library moves and compares floats but never computes with them, so a
//! `u32` bit pattern stands for each one.
use vstd::prelude::*;

verus! {

/// Bits of `0.0`.
pub const ZERO: u32 = 0;

/// Bits of `1.0`.
pub const ONE: u32 = 0x3f80_0000;

/// A three-component vector of bit patterns.
#[derive(Clone, Copy, Debug, PartialEq, Eq, Structural)]
pub struct Vec3 {
    pub x: u32,
    pub y: u32,
    pub z: u32,
}

impl Vec3 {
    pub fn new(x: u32, y: u32, z: u32) -> (v: Self)
        ensures
            v == (Vec3 { x, y, z }),
    {
        Vec3 { x, y, z }
    }

    /// The components in order.
    pub open spec fn seq(self) -> Seq<u32> {
        seq![self.x, self.y, self.z]
    }

    /// The unit vector along Y.
    pub open spec fn unit_y() -> Self {
        Vec3 { x: ZERO, y: ONE, z: ZERO }
    }

    /// The zero vector.
    pub open spec fn zero() -> Self {
        Vec3 { x: ZERO, y: ZERO, z: ZERO }
    }
}

/// Whether the pattern encodes a NaN.
pub open spec fn is_nan(a: u32) -> bool {
    if a < 0x8000_0000 {
        a > 0x7f80_0000
    } else {
        a > 0xff80_0000
    }
}

/// Position of a number that is no NaN in the order of all numbers; both
/// zeros share one position.
pub open spec fn rank(a: u32) -> int {
    if a < 0x8000_0000 {
        a as int
    } else {
        0x8000_0000 - a
    }
}

/// IEEE `a < b`: false when either side is a NaN.
pub open spec fn lt(a: u32, b: u32) -> bool {
    !is_nan(a) && !is_nan(b) && rank(a) < rank(b)
}

/// IEEE `a <= b`: false when either side is a NaN.
pub open spec fn le(a: u32, b: u32) -> bool {
    !is_nan(a) && !is_nan(b) && rank(a) <= rank(b)
}

fn nan_bits(a: u32) -> (nan: bool)
    ensures
        nan == is_nan(a),
{
    if a < 0x8000_0000 {
        a > 0x7f80_0000
    } else {
        a > 0xff80_0000
    }
}

fn rank_bits(a: u32) -> (r: i64)
    ensures
        r == rank(a),
{
    if a < 0x8000_0000 {
        a as i64
    } else {
        0x8000_0000i64 - a as i64
    }
}

/// Whether the float `a` is less than the float `b`.
pub fn less(a: u32, b: u32) -> (r: bool)
    ensures
        r == lt(a, b),
{
    !nan_bits(a) && !nan_bits(b) && rank_bits(a) < rank_bits(b)
}

/// Whether the float `a` is at most the float `b`.
pub fn less_or_equal(a: u32, b: u32) -> (r: bool)
    ensures
        r == le(a, b),
{
    !nan_bits(a) && !nan_bits(b) && rank_bits(a) <= rank_bits(b)
}

/// On numbers the order is total: either `a < b` or `b <= a`, never both. A
/// NaN on either side makes every comparison false.
pub proof fn law_order_total(a: u32, b: u32)
    ensures
        !is_nan(a) && !is_nan(b) ==> lt(a, b) == !le(b, a),
        is_nan(a) || is_nan(b) ==> !lt(a, b) && !le(a, b) && !le(b, a),
{
}

/// A pattern is a NaN where all its exponent bits are set and some bit of its
/// mantissa is.
pub proof fn law_nan_patterns(a: u32)
    ensures
        is_nan(a) <==> a & 0x7f80_0000 == 0x7f80_0000 && a & 0x007f_ffff != 0,
{
    assert((if a < 0x8000_0000u32 {
        a > 0x7f80_0000u32
    } else {
        a > 0xff80_0000u32
    }) <==> (a & 0x7f80_0000 == 0x7f80_0000 && a & 0x007f_ffff != 0)) by (bit_vector);
}

/// Among numbers, those without a sign bit are ordered as their patterns are
/// and those with one the other way round; any with a sign bit lies below any
/// without, but for the two zeros, which are equal.
pub proof fn law_order_of_patterns(a: u32, b: u32)
    requires
        !is_nan(a),
        !is_nan(b),
    ensures
        a < 0x8000_0000 && b < 0x8000_0000 ==> lt(a, b) == (a < b) && le(a, b) == (a <= b),
        a >= 0x8000_0000 && b >= 0x8000_0000 ==> lt(a, b) == (a > b) && le(a, b) == (a >= b),
        a >= 0x8000_0000 && b < 0x8000_0000 ==> le(a, b) && !lt(b, a) && lt(a, b) == !(a
            == 0x8000_0000 && b == 0),
        a == 0x8000_0000 && b == 0 ==> le(b, a),
{
}

} // verus!
