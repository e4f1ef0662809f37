//! Fixed-point world-space scalars.
//!
//! A world-space length is stored as a signed 64-bit integer counting
//! units of `1 / FP_ONE` world units. The chunk grid arithmetic only ever
//! divides by positive quantities, so floor and ceiling divisions are the
//! two rounding modes the library needs; both are given exact contracts
//! over mathematical integers.

use vstd::prelude::*;

verus! {

/// Number of fixed-point steps in one world unit.
pub const FP_ONE: i64 = 65536;

/// Floor of `a / b` over the mathematical integers, for `b > 0`.
///
/// Spec-level `/` on `int` is Euclidean division, which rounds toward
/// negative infinity whenever the divisor is positive, so this is written
/// directly as `a / b`.
pub open spec fn div_floor(a: int, b: int) -> int {
    a / b
}

/// Ceiling of `a / b` over the mathematical integers, for `b > 0`.
pub open spec fn div_ceil(a: int, b: int) -> int {
    -((-a) / b)
}

/// Floor division is monotone in the dividend (positive divisors).
pub proof fn lemma_div_floor_monotone(a1: int, a2: int, b: int)
    by (nonlinear_arith)
    requires
        b > 0,
        a1 <= a2,
    ensures
        div_floor(a1, b) <= div_floor(a2, b),
{
}

/// The floor of `a / b` is bounded above by the ceiling of `c / b`
/// whenever `a <= c` (positive divisors).
pub proof fn lemma_div_floor_le_ceil_of_larger(a: int, c: int, b: int)
    by (nonlinear_arith)
    requires
        b > 0,
        a <= c,
    ensures
        div_floor(a, b) <= div_ceil(c, b),
{
}

/// A dividend within `m` multiples of a positive divisor has its floored
/// quotient within `m`.
pub proof fn lemma_div_floor_bounded(a: int, b: int, m: int)
    by (nonlinear_arith)
    requires
        b > 0,
        m >= 0,
        -(m * b) <= a <= m * b,
    ensures
        -m <= div_floor(a, b) <= m,
{
}

/// Exact floor division of `i64` values by a positive divisor.
pub fn floor_div(a: i64, b: i64) -> (q: i64)
    requires
        b > 0,
    ensures
        q == div_floor(a as int, b as int),
{
    proof {
        lemma_floor_div_in_range(a as int, b as int);
    }
    match a.checked_div_euclid(b) {
        Some(q) => q,
        None => {
            proof {
                assert(false);
            }
            0
        },
    }
}

/// Exact ceiling division of `i64` values by a positive divisor.
///
/// `a` must exceed `i64::MIN` so that its negation is representable.
pub fn ceil_div(a: i64, b: i64) -> (q: i64)
    requires
        b > 0,
        a > i64::MIN,
    ensures
        q == div_ceil(a as int, b as int),
{
    proof {
        lemma_floor_div_in_range(-a as int, b as int);
        lemma_floor_div_in_range(a as int, b as int);
    }
    let neg: i64 = -a;
    let q: i64 = floor_div(neg, b);
    proof {
        assert(-(i64::MAX as int) <= div_floor(-a as int, b as int)) by (nonlinear_arith)
            requires
                b > 0,
                i64::MIN < a <= i64::MAX,
                i64::MIN as int == -(i64::MAX as int) - 1,
        ;
    }
    -q
}

/// Euclidean floor division keeps an `i64` dividend inside the `i64` range
/// when the divisor is positive.
proof fn lemma_floor_div_in_range(a: int, b: int)
    by (nonlinear_arith)
    requires
        b > 0,
        i64::MIN <= a <= i64::MAX,
    ensures
        i64::MIN <= div_floor(a, b) <= i64::MAX,
{
}

} // verus!
