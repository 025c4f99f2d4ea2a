//! Fixed-point arithmetic shared by the generator and the stepper.
use vstd::prelude::*;

verus! {

/// Number of fixed-point units in one world unit.
pub const SCALE: i64 = 1_000_000;

/// Gap left between neighbouring particles of a generated grid: a tenth of a
/// world unit.
pub const PADDING: i64 = 100_000;

/// `a` divided by `d`, rounded toward zero (Rust's `/`, not Euclid's).
pub open spec fn trunc_div(a: int, d: int) -> int {
    if a >= 0 {
        a / d
    } else {
        -((-a) / d)
    }
}

/// Whether `z` can be stored in an `i64`.
pub open spec fn fits_i64(z: int) -> bool {
    i64::MIN <= z <= i64::MAX
}

/// Divides `a` by the positive `d`, rounding toward zero.
pub fn div_toward_zero(a: i128, d: i128) -> (r: i128)
    requires
        d > 0,
        a > i128::MIN,
    ensures
        r == trunc_div(a as int, d as int),
{
    if a >= 0 {
        a / d
    } else {
        -((-a) / d)
    }
}

} // verus!
