//! Saturating integer arithmetic.

use vstd::prelude::*;

verus! {

/// `x` limited to the range of `i64`.
pub open spec fn clamp_i64(x: int) -> i64 {
    if x < i64::MIN {
        i64::MIN
    } else if x > i64::MAX {
        i64::MAX
    } else {
        x as i64
    }
}

/// `x` limited to the range of `u64`, for a non-negative `x`.
pub open spec fn clamp_u64(x: int) -> u64 {
    if x > u64::MAX {
        u64::MAX
    } else {
        x as u64
    }
}

/// `a + b`, saturating at the bounds of `i64`.
pub fn saturating_add_i64(a: i64, b: i64) -> (r: i64)
    ensures
        r == clamp_i64(a + b),
{
    match a.checked_add(b) {
        Some(sum) => sum,
        None => if b < 0 {
            i64::MIN
        } else {
            i64::MAX
        },
    }
}

/// `a - b`, saturating at the bounds of `i64`.
pub fn saturating_sub_i64(a: i64, b: i64) -> (r: i64)
    ensures
        r == clamp_i64(a - b),
{
    match a.checked_sub(b) {
        Some(difference) => difference,
        None => if b < 0 {
            i64::MAX
        } else {
            i64::MIN
        },
    }
}

/// `a * b`, saturating at the bounds of `i64`, for a positive factor `b`.
pub fn saturating_mul_i64(a: i64, b: i64) -> (r: i64)
    requires
        b > 0,
    ensures
        r == clamp_i64(a * b),
{
    match a.checked_mul(b) {
        Some(product) => product,
        None => if a < 0 {
            assert(a * b <= 0) by (nonlinear_arith)
                requires
                    a < 0,
                    b > 0,
            ;
            i64::MIN
        } else {
            assert(a * b >= 0) by (nonlinear_arith)
                requires
                    a >= 0,
                    b > 0,
            ;
            i64::MAX
        },
    }
}

/// `a * b`, saturating at the bound of `u64`.
pub fn saturating_mul_u64(a: u64, b: u64) -> (r: u64)
    ensures
        r == clamp_u64(a * b),
{
    match a.checked_mul(b) {
        Some(product) => product,
        None => u64::MAX,
    }
}

} // verus!
