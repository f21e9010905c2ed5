//! Signed 64-bit fixed-point plane coordinates with 32 fraction bits.
//!
//! A value `v: i64` stands for the real number `v / 2^32`. Sums and products
//! that leave the representable range saturate at the range's ends; products
//! round toward zero. Every operation's result is pinned exactly by its
//! contract over the spec functions below.

use vstd::prelude::*;

verus! {

/// The denominator of the representation: `1.0` is `FIX_ONE`.
pub const FIX_ONE: i64 = 0x1_0000_0000;

/// Clamp an unbounded integer into the representable `i64` range.
pub open spec fn clamp_fix(v: int) -> int {
    if v > i64::MAX as int {
        i64::MAX as int
    } else if v < i64::MIN as int {
        i64::MIN as int
    } else {
        v
    }
}

/// Division that rounds toward zero, for a positive divisor.
pub open spec fn tdiv(p: int, d: int) -> int {
    if p >= 0 {
        p / d
    } else {
        -((-p) / d)
    }
}

/// Magnitude of an integer.
pub open spec fn abs_fix(v: int) -> int {
    if v >= 0 {
        v
    } else {
        -v
    }
}

/// The fixed-point product: scale the integer product back down, rounding
/// toward zero, and saturate.
pub open spec fn fix_mul_spec(a: int, b: int) -> int {
    clamp_fix(tdiv(a * b, FIX_ONE as int))
}

/// The fixed-point sum: exact, then saturated.
pub open spec fn fix_add_spec(a: int, b: int) -> int {
    clamp_fix(a + b)
}

/// The fixed-point difference: exact, then saturated.
pub open spec fn fix_sub_spec(a: int, b: int) -> int {
    clamp_fix(a - b)
}

/// A fixed-point value divided by a positive integer (not by another
/// fixed-point value): exact quotient toward zero.
pub open spec fn fix_div_int_spec(a: int, d: int) -> int {
    tdiv(a, d)
}

/// Saturate a wide intermediate into the representable range.
pub fn fix_clamp_wide(v: i128) -> (r: i64)
    ensures
        r as int == clamp_fix(v as int),
{
    if v > i64::MAX as i128 {
        i64::MAX
    } else if v < i64::MIN as i128 {
        i64::MIN
    } else {
        v as i64
    }
}

/// Saturating fixed-point multiplication.
pub fn fix_mul(a: i64, b: i64) -> (r: i64)
    ensures
        r as int == fix_mul_spec(a as int, b as int),
{
    proof {
        assert((a as int) * (b as int) <= 0x4000_0000_0000_0000_0000_0000_0000_0000int
            && (a as int) * (b as int) >= -0x4000_0000_0000_0000_0000_0000_0000_0000int)
            by (nonlinear_arith)
            requires
                -0x8000_0000_0000_0000 <= a as int <= 0x7fff_ffff_ffff_ffff,
                -0x8000_0000_0000_0000 <= b as int <= 0x7fff_ffff_ffff_ffff,
        ;
    }
    let p: i128 = (a as i128) * (b as i128);
    let q: i128 = p / (FIX_ONE as i128);
    fix_clamp_wide(q)
}

/// Saturating fixed-point addition.
pub fn fix_add(a: i64, b: i64) -> (r: i64)
    ensures
        r as int == fix_add_spec(a as int, b as int),
{
    fix_clamp_wide((a as i128) + (b as i128))
}

/// Saturating fixed-point subtraction.
pub fn fix_sub(a: i64, b: i64) -> (r: i64)
    ensures
        r as int == fix_sub_spec(a as int, b as int),
{
    fix_clamp_wide((a as i128) - (b as i128))
}

/// Quotient of a fixed-point value by a positive integer.
pub fn fix_div_int(a: i64, d: u32) -> (r: i64)
    requires
        d > 0,
    ensures
        r as int == fix_div_int_spec(a as int, d as int),
{
    let q: i128 = (a as i128) / (d as i128);
    proof {
        assert(0 <= (a as int) / (d as int) <= a as int || 0 <= (-(a as int)) / (d as int)
            <= -(a as int)) by (nonlinear_arith)
            requires
                d as int >= 1,
        ;
    }
    q as i64
}

/// The fixed-point image of a small integer.
pub fn fix_from_int(v: i32) -> (r: i64)
    ensures
        r as int == v as int * FIX_ONE as int,
{
    (v as i64) * FIX_ONE
}

} // verus!
