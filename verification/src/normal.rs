//! Vertex normals from finite-difference gradients.
//!
//! The surface tangents at a vertex are `dX = (2*DELTA, a, 0)` and
//! `dZ = (0, b, 2*DELTA)`, where `a` and `b` are the two-sided height
//! differences along X and Z. Their cross product is
//! `2*DELTA * (a, -2*DELTA, b)`, so the normal direction is the vector
//! `(a, -2*DELTA, b)` normalized. Normalization is exact integer
//! arithmetic: the magnitude of each component is scaled by
//! `NORMAL_ONE / |v|` using an integer square root, which keeps the
//! squared length of the result within `NORM_SQ_TOL` of `NORMAL_ONE^2` —
//! a relative length error below `1e-4`.

use vstd::prelude::*;
use crate::fixed::div_floor;

verus! {

/// Planar offset, in fixed-point world units, at which the heightfield is
/// sampled for the two-sided differences (a quarter of a world unit).
/// Fixed and independent of the cell size, so normals do not change when
/// only the mesh resolution does.
pub const DELTA: i64 = 16384;

/// Fixed-point unit for normal components: a unit normal has squared
/// length close to `NORMAL_ONE * NORMAL_ONE`.
pub const NORMAL_ONE: i64 = 65536;

/// Guaranteed bound on `|squared length - NORMAL_ONE^2|` of a normal.
pub const NORM_SQ_TOL: i64 = 524288;

/// Largest height difference the gradient may carry: twice the largest
/// amplitude.
pub const GRAD_LIMIT: i64 = 0x80000000;

/// The integer square root: the largest `r` with `r * r <= n`.
pub open spec fn sqrt_floor(n: nat) -> nat
    decreases n,
{
    if n == 0 {
        0
    } else {
        let r = sqrt_floor((n - 1) as nat);
        if (r + 1) * (r + 1) <= n {
            r + 1
        } else {
            r
        }
    }
}

/// `sqrt_floor(n)` brackets `n` between two consecutive squares.
pub proof fn lemma_sqrt_floor_bounds(n: nat)
    ensures
        sqrt_floor(n) * sqrt_floor(n) <= n,
        n < (sqrt_floor(n) + 1) * (sqrt_floor(n) + 1),
    decreases n,
{
    if n == 0 {
        let r = sqrt_floor(n);
        assert(r == 0);
        assert(r * r <= n && n < (r + 1) * (r + 1)) by (nonlinear_arith)
            requires
                n == 0,
                r == 0nat,
        ;
    } else {
        lemma_sqrt_floor_bounds((n - 1) as nat);
        let r0 = sqrt_floor((n - 1) as nat);
        if (r0 + 1) * (r0 + 1) <= n {
            assert(sqrt_floor(n) == r0 + 1);
            assert((r0 + 1) * (r0 + 1) == n);
            assert(n < (r0 + 2) * (r0 + 2)) by (nonlinear_arith)
                requires
                    n == (r0 + 1) * (r0 + 1),
                    r0 >= 0,
            ;
        } else {
            assert(sqrt_floor(n) == r0);
        }
    }
}

/// Any `r` bracketing `n` between `r^2` and `(r+1)^2` is the integer
/// square root.
pub proof fn lemma_sqrt_floor_unique(n: nat, r: nat)
    requires
        r * r <= n,
        n < (r + 1) * (r + 1),
    ensures
        r == sqrt_floor(n),
{
    lemma_sqrt_floor_bounds(n);
    let s = sqrt_floor(n);
    assert(r == s) by (nonlinear_arith)
        requires
            r * r <= n,
            n < (r + 1) * (r + 1),
            s * s <= n,
            n < (s + 1) * (s + 1),
            r >= 0,
            s >= 0,
    ;
}

/// Integer square root of a `u64`, by bisection.
pub fn isqrt(s: u64) -> (r: u64)
    ensures
        r == sqrt_floor(s as nat),
        r * r <= s,
        s < (r + 1) * (r + 1),
{
    let mut lo: u64 = 0;
    let mut hi: u64 = 0x100000000;
    proof {
        assert((0x100000000u64 as int) * (0x100000000u64 as int) > u64::MAX as int);
    }
    while lo + 1 < hi
        invariant
            lo < hi <= 0x100000000,
            lo * lo <= s,
            hi * hi > s,
        decreases hi - lo,
    {
        let mid: u64 = lo + (hi - lo) / 2;
        proof {
            assert(lo < mid < hi);
            assert(mid * mid < 0x10000000000000000) by (nonlinear_arith)
                requires
                    mid < 0x100000000u64,
            ;
        }
        if mid * mid <= s {
            lo = mid;
        } else {
            hi = mid;
        }
    }
    proof {
        assert(hi == lo + 1);
        lemma_sqrt_floor_unique(s as nat, lo as nat);
    }
    lo
}

/// Squared length of the direction vector `(a, -2*DELTA, b)`.
pub open spec fn grad_norm_sq(a: int, b: int) -> int {
    a * a + 4 * DELTA * DELTA + b * b
}

/// Magnitude of a normal component: `v * NORMAL_ONE / l`, for `v >= 0`.
pub open spec fn scaled_mag(v: int, l: int) -> int {
    div_floor(v * NORMAL_ONE, l)
}

/// The normal at a vertex whose two-sided height differences are `a`
/// (along X) and `b` (along Z): the vector `(a, -2*DELTA, b)` scaled to
/// unit length, component-wise rounded toward zero.
pub open spec fn normal_spec(a: int, b: int) -> (int, int, int) {
    let l = sqrt_floor(grad_norm_sq(a, b) as nat) as int;
    let nx = if a >= 0 { scaled_mag(a, l) } else { -scaled_mag(-a, l) };
    let nz = if b >= 0 { scaled_mag(b, l) } else { -scaled_mag(-b, l) };
    (nx, -scaled_mag(2 * DELTA, l), nz)
}

/// Squared length of a component triple.
pub open spec fn norm_sq(n: (int, int, int)) -> int {
    n.0 * n.0 + n.1 * n.1 + n.2 * n.2
}

/// Bracketing facts for one scaled component `t = v * NORMAL_ONE / l`.
proof fn lemma_component_sq_bounds(v: int, l: int, t: int)
    requires
        l > 0,
        0 <= v <= l,
        t == scaled_mag(v, l),
    ensures
        0 <= t <= NORMAL_ONE,
        t * t * (l * l) <= v * v * (NORMAL_ONE * NORMAL_ONE),
        t * t * (l * l) >= v * v * (NORMAL_ONE * NORMAL_ONE) - 2 * v * NORMAL_ONE * l,
{
    let k = NORMAL_ONE as int;
    vstd::arithmetic::div_mod::lemma_fundamental_div_mod(v * k, l);
    vstd::arithmetic::div_mod::lemma_mod_bound(v * k, l);
    assert(t * l <= v * k < t * l + l);
    assert(0 <= t && t <= k) by (nonlinear_arith)
        requires
            l > 0,
            0 <= v <= l,
            k > 0,
            t * l <= v * k < t * l + l,
    ;
    assert(t * t * (l * l) <= v * v * (k * k)) by (nonlinear_arith)
        requires
            0 <= t,
            l > 0,
            0 <= v,
            k > 0,
            t * l <= v * k,
    ;
    assert(t * t * (l * l) >= v * v * (k * k) - 2 * v * k * l) by (nonlinear_arith)
        requires
            0 <= t,
            l > 0,
            0 <= v,
            k > 0,
            v * k < t * l + l,
    ;
}

/// The squared length of the scaled triple stays within `NORM_SQ_TOL`
/// of `NORMAL_ONE^2`.
proof fn lemma_norm_sq_total(va: int, vy: int, vb: int, l: int, ta: int, ty: int, tb: int)
    requires
        32768 <= l,
        0 <= va <= l,
        0 <= vy <= l,
        0 <= vb <= l,
        l * l <= va * va + vy * vy + vb * vb,
        va * va + vy * vy + vb * vb <= l * l + 2 * l,
        ta == scaled_mag(va, l),
        ty == scaled_mag(vy, l),
        tb == scaled_mag(vb, l),
    ensures
        0 <= ta <= NORMAL_ONE,
        0 <= ty <= NORMAL_ONE,
        0 <= tb <= NORMAL_ONE,
        NORMAL_ONE * NORMAL_ONE - NORM_SQ_TOL <= ta * ta + ty * ty + tb * tb,
        ta * ta + ty * ty + tb * tb <= NORMAL_ONE * NORMAL_ONE + NORM_SQ_TOL,
{
    let k = NORMAL_ONE as int;
    let s = va * va + vy * vy + vb * vb;
    let t2 = ta * ta + ty * ty + tb * tb;
    lemma_component_sq_bounds(va, l, ta);
    lemma_component_sq_bounds(vy, l, ty);
    lemma_component_sq_bounds(vb, l, tb);
    assert(t2 * (l * l) == ta * ta * (l * l) + ty * ty * (l * l) + tb * tb * (l * l))
        by (nonlinear_arith)
        requires
            t2 == ta * ta + ty * ty + tb * tb,
    ;
    assert(s * (k * k) == va * va * (k * k) + vy * vy * (k * k) + vb * vb * (k * k))
        by (nonlinear_arith)
        requires
            s == va * va + vy * vy + vb * vb,
    ;
    assert(t2 * (l * l) <= s * (k * k));
    assert(t2 * (l * l) >= s * (k * k) - 2 * (va + vy + vb) * k * l) by (nonlinear_arith)
        requires
            ta * ta * (l * l) >= va * va * (k * k) - 2 * va * k * l,
            ty * ty * (l * l) >= vy * vy * (k * k) - 2 * vy * k * l,
            tb * tb * (l * l) >= vb * vb * (k * k) - 2 * vb * k * l,
            t2 * (l * l) == ta * ta * (l * l) + ty * ty * (l * l) + tb * tb * (l * l),
            s * (k * k) == va * va * (k * k) + vy * vy * (k * k) + vb * vb * (k * k),
    ;
    // Upper bound: t2 * l^2 <= k^2 * (l^2 + 2l), and l >= 32768 makes the
    // excess at most 0x40000.
    assert(s * (k * k) <= (l * l + 2 * l) * (k * k)) by (nonlinear_arith)
        requires
            s <= l * l + 2 * l,
            k > 0,
    ;
    assert(t2 <= k * k + 0x40000) by (nonlinear_arith)
        requires
            t2 * (l * l) <= (l * l + 2 * l) * (k * k),
            l >= 32768,
            k == 65536,
            t2 >= 0,
    ;
    // Lower bound: the component magnitudes sum to at most 3l, so the
    // truncation deficit is at most 6 * k * l^2.
    assert(t2 * (l * l) >= (k * k - 6 * k) * (l * l)) by (nonlinear_arith)
        requires
            t2 * (l * l) >= s * (k * k) - 2 * (va + vy + vb) * k * l,
            s * (k * k) >= (l * l) * (k * k),
            l * l <= s,
            0 <= va <= l,
            0 <= vy <= l,
            0 <= vb <= l,
            l > 0,
            k == 65536,
    ;
    assert(t2 >= k * k - 6 * k) by (nonlinear_arith)
        requires
            t2 * (l * l) >= (k * k - 6 * k) * (l * l),
            l > 0,
    ;
}

/// Normalizes the gradient direction `(a, -2*DELTA, b)` to a fixed-point
/// unit vector.
///
/// The result is the exact value of [`normal_spec`]; its squared length
/// lies within [`NORM_SQ_TOL`] of `NORMAL_ONE^2`, and it points toward
/// negative Y, the side the cross product `dX x dZ` selects.
pub fn normalize_gradient(a: i64, b: i64) -> (n: (i64, i64, i64))
    requires
        -GRAD_LIMIT <= a <= GRAD_LIMIT,
        -GRAD_LIMIT <= b <= GRAD_LIMIT,
    ensures
        (n.0 as int, n.1 as int, n.2 as int) == normal_spec(a as int, b as int),
        NORMAL_ONE * NORMAL_ONE - NORM_SQ_TOL <= norm_sq((n.0 as int, n.1 as int, n.2 as int)),
        norm_sq((n.0 as int, n.1 as int, n.2 as int)) <= NORMAL_ONE * NORMAL_ONE + NORM_SQ_TOL,
        -NORMAL_ONE <= n.0 <= NORMAL_ONE,
        -NORMAL_ONE <= n.1 <= 0,
        -NORMAL_ONE <= n.2 <= NORMAL_ONE,
{
    let ua: i64 = if a < 0 { -a } else { a };
    let ub: i64 = if b < 0 { -b } else { b };
    proof {
        assert(ua * ua <= GRAD_LIMIT * GRAD_LIMIT && ub * ub <= GRAD_LIMIT * GRAD_LIMIT)
            by (nonlinear_arith)
            requires
                0 <= ua <= GRAD_LIMIT,
                0 <= ub <= GRAD_LIMIT,
        ;
    }
    let sa: u64 = (ua as u64) * (ua as u64);
    let sb: u64 = (ub as u64) * (ub as u64);
    let s: u64 = sa + sb + 0x40000000;
    proof {
        assert(ua * ua == a * a && ub * ub == b * b) by (nonlinear_arith)
            requires
                ua == a || ua == -a,
                ub == b || ub == -b,
        ;
        assert(s == grad_norm_sq(a as int, b as int));
    }
    let l: u64 = isqrt(s);
    proof {
        assert(32768 <= l) by (nonlinear_arith)
            requires
                l * l <= s,
                s < (l + 1) * (l + 1),
                s >= 0x40000000,
                l >= 0,
        ;
        assert(ua <= l && ub <= l && s <= l * l + 2 * l) by (nonlinear_arith)
            requires
                s < (l + 1) * (l + 1),
                l * l <= s,
                ua * ua <= s,
                ub * ub <= s,
                32768 <= l,
                0 <= ua,
                0 <= ub,
        ;
    }
    let ta: u64 = (ua as u64) * 65536 / l;
    let ty: u64 = 32768 * 65536 / l;
    let tb: u64 = (ub as u64) * 65536 / l;
    proof {
        lemma_norm_sq_total(
            ua as int,
            32768,
            ub as int,
            l as int,
            ta as int,
            ty as int,
            tb as int,
        );
    }
    let nx: i64 = if a < 0 { -(ta as i64) } else { ta as i64 };
    let nz: i64 = if b < 0 { -(tb as i64) } else { tb as i64 };
    let ny: i64 = -(ty as i64);
    proof {
        lemma_signed_square(nx as int, ta as int);
        lemma_signed_square(ny as int, ty as int);
        lemma_signed_square(nz as int, tb as int);
    }
    (nx, ny, nz)
}

/// A component and its magnitude have the same square.
proof fn lemma_signed_square(n: int, t: int)
    by (nonlinear_arith)
    requires
        n == t || n == -t,
    ensures
        n * n == t * t,
{
}

} // verus!
