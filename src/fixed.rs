//! Fixed-point arithmetic shared by the physics, the controllers and the analyzer.
use vstd::prelude::*;

verus! {

/// Number of micro-units in one unit (metre, second, volt).
pub const MICRO: i64 = 1_000_000;

/// Absolute value of a mathematical integer.
pub open spec fn abs(x: int) -> int {
    if x < 0 {
        -x
    } else {
        x
    }
}

/// Integer division rounded toward zero (the rounding of Rust's `/`).
pub open spec fn div_toward_zero(x: int, d: int) -> int {
    if x >= 0 {
        x / d
    } else {
        -((-x) / d)
    }
}

/// Whether a mathematical integer is representable as an `i64`.
pub open spec fn fits_i64(x: int) -> bool {
    i64::MIN <= x <= i64::MAX
}

/// Divides `x` by a positive `d`, rounding toward zero.
pub fn div_toward_zero_i128(x: i128, d: i128) -> (r: i128)
    requires
        d > 0,
        x > i128::MIN,
    ensures
        r == div_toward_zero(x as int, d as int),
        abs(r as int) <= abs(x as int),
{
    if x >= 0 {
        x / d
    } else {
        -((-x) / d)
    }
}

/// Absolute value of an `i64`, widened so that it cannot overflow.
pub fn abs_i128(x: i64) -> (r: i128)
    ensures
        r == abs(x as int),
{
    if x < 0 {
        -(x as i128)
    } else {
        x as i128
    }
}

/// Narrows an `i128` to an `i64` when it is representable.
pub fn narrow_i64(x: i128) -> (r: Option<i64>)
    ensures
        r is Some <==> fits_i64(x as int),
        r matches Some(y) ==> y as int == x as int,
{
    if i64::MIN as i128 <= x && x <= i64::MAX as i128 {
        Some(x as i64)
    } else {
        None
    }
}

/// Multiplies two `i64` values exactly, in 128 bits.
pub fn mul_wide(x: i64, y: i64) -> (r: i128)
    ensures
        r as int == x as int * y as int,
        -0x4000_0000_0000_0000_0000_0000_0000_0000 <= r <= 0x4000_0000_0000_0000_0000_0000_0000_0000,
{
    proof {
        lemma_mul_wide_bound(x as int, y as int);
    }
    (x as i128) * (y as i128)
}

/// The product of two `i64` values lies well inside the `i128` range.
pub proof fn lemma_mul_wide_bound(x: int, y: int)
    requires
        fits_i64(x),
        fits_i64(y),
    ensures
        -0x4000_0000_0000_0000_0000_0000_0000_0000 <= x * y <= 0x4000_0000_0000_0000_0000_0000_0000_0000,
{
    assert(abs(x) <= 0x8000_0000_0000_0000);
    assert(abs(y) <= 0x8000_0000_0000_0000);
    assert(abs(x) * abs(y) <= 0x8000_0000_0000_0000 * 0x8000_0000_0000_0000) by (nonlinear_arith)
        requires
            0 <= abs(x) <= 0x8000_0000_0000_0000,
            0 <= abs(y) <= 0x8000_0000_0000_0000,
    ;
    assert(abs(x * y) == abs(x) * abs(y)) by (nonlinear_arith);
}

} // verus!
