//! Deterministic heightfield sampler.
//!
//! The terrain elevation is coherent lattice noise: a hash of the seed and
//! the lattice cell gives a pseudo-random corner value in
//! `[-FP_ONE, FP_ONE]`, and the height at a point is the bilinear
//! interpolation of the four surrounding corners, scaled by the configured
//! amplitude. Everything is integer arithmetic over fixed-point
//! coordinates, so the same `(x, z, seed, frequency)` always yields the
//! same height — the property the chunk cache depends on for idempotent
//! regeneration.

use vstd::prelude::*;
use crate::config::ChunkConfig;
use crate::config::MAX_NOISE_FREQUENCY;
use crate::config::MAX_AMPLITUDE;
use crate::fixed::FP_ONE;
use crate::fixed::div_floor;
use crate::fixed::floor_div;

verus! {

/// Largest planar coordinate (in fixed-point world units) at which the
/// sampler may be asked for a height; keeps `x * noise_frequency` inside
/// `i64`.
pub const SAMPLE_LIMIT: i64 = 0x8000000000;

/// Bound on lattice cell indices reached from `SAMPLE_LIMIT`-bounded
/// coordinates.
pub const CELL_LIMIT: i64 = 0x20000000;

/// Bound on noise-space coordinates divided down to lattice cells; one
/// below `CELL_LIMIT` so that the cell above a sample is still in range.
pub const LATTICE_LIMIT: i64 = 0x8000000;

/// A 64-bit integer mixer (xor-shift and odd-constant multiplies); the
/// source of all pseudo-randomness in the heightfield.
#[verifier::opaque]
pub open spec fn mix64_spec(x: u64) -> u64 {
    let a = vstd::wrapping::u64_specs::wrapping_add(x, 0x9E3779B97F4A7C15);
    let b = vstd::wrapping::u64_specs::wrapping_mul(a ^ (a >> 30u64), 0xBF58476D1CE4E5B9);
    let c = vstd::wrapping::u64_specs::wrapping_mul(b ^ (b >> 27u64), 0x94D049BB133111EB);
    c ^ (c >> 31u64)
}

fn mix64(x: u64) -> (r: u64)
    ensures
        r == mix64_spec(x),
{
    proof {
        reveal(mix64_spec);
    }
    let a: u64 = x.wrapping_add(0x9E3779B97F4A7C15);
    let b: u64 = (a ^ (a >> 30u64)).wrapping_mul(0xBF58476D1CE4E5B9);
    let c: u64 = (b ^ (b >> 27u64)).wrapping_mul(0x94D049BB133111EB);
    c ^ (c >> 31u64)
}

/// Pseudo-random value of the lattice corner `(cx, cz)`, in
/// `[-FP_ONE, FP_ONE]`.
#[verifier::opaque]
pub open spec fn corner_value_spec(seed: u64, cx: int, cz: int) -> int {
    let ux = (cx + 0x80000000) as u64;
    let uz = (cz + 0x80000000) as u64;
    let h = mix64_spec(vstd::wrapping::u64_specs::wrapping_add(
        mix64_spec(vstd::wrapping::u64_specs::wrapping_add(seed, mix64_spec(ux))),
        mix64_spec(uz),
    ));
    (h & 0x1FFFF) - FP_ONE
}

fn corner_value(seed: u64, cx: i64, cz: i64) -> (v: i64)
    requires
        -CELL_LIMIT <= cx <= CELL_LIMIT,
        -CELL_LIMIT <= cz <= CELL_LIMIT,
    ensures
        v == corner_value_spec(seed, cx as int, cz as int),
        -FP_ONE <= v <= FP_ONE,
{
    proof {
        reveal(corner_value_spec);
    }
    let ux: u64 = (cx + 0x80000000) as u64;
    let uz: u64 = (cz + 0x80000000) as u64;
    let h: u64 = mix64(mix64(seed.wrapping_add(mix64(ux))).wrapping_add(mix64(uz)));
    let masked: u64 = h & 0x1FFFF;
    proof {
        assert(h & 0x1FFFF < 0x20000) by (bit_vector);
    }
    (masked as i64) - FP_ONE
}

/// Linear interpolation between fixed-point values `a` and `b` at
/// parameter `t / FP_ONE`, rounded toward negative infinity. For
/// `0 <= t < FP_ONE` the result stays between `a` and `b`.
pub open spec fn lerp_spec(a: int, b: int, t: int) -> int {
    a + div_floor((b - a) * t, FP_ONE as int)
}

fn lerp(a: i64, b: i64, t: i64) -> (r: i64)
    requires
        -FP_ONE <= a <= FP_ONE,
        -FP_ONE <= b <= FP_ONE,
        0 <= t < FP_ONE,
    ensures
        r == lerp_spec(a as int, b as int, t as int),
        -FP_ONE <= r <= FP_ONE,
{
    let diff: i64 = b - a;
    proof {
        assert(-(2 * FP_ONE * FP_ONE) <= diff * t <= 2 * FP_ONE * FP_ONE) by (nonlinear_arith)
            requires
                -2 * FP_ONE <= diff <= 2 * FP_ONE,
                0 <= t < FP_ONE,
        ;
    }
    let prod: i64 = diff * t;
    let frac: i64 = floor_div(prod, FP_ONE);
    proof {
        lemma_lerp_term_bounds(a as int, b as int, t as int);
    }
    a + frac
}

/// The interpolation step `(b - a) * t / FP_ONE` moves `a` no further
/// than to `b`.
proof fn lemma_lerp_term_bounds(a: int, b: int, t: int)
    by (nonlinear_arith)
    requires
        -FP_ONE <= a <= FP_ONE,
        -FP_ONE <= b <= FP_ONE,
        0 <= t < FP_ONE,
    ensures
        b >= a ==> 0 <= div_floor((b - a) * t, FP_ONE as int) <= b - a,
        b < a ==> b - a <= div_floor((b - a) * t, FP_ONE as int) <= 0,
{
}

/// Noise-space coordinate of the planar fixed-point coordinate `p`:
/// `p * frequency`, kept in fixed point.
pub open spec fn noise_coord_spec(p: int, frequency: int) -> int {
    div_floor(p * frequency, FP_ONE as int)
}

/// The height at planar point `(x, z)`: bilinear lattice noise in
/// `[-FP_ONE, FP_ONE]`, scaled to `[-max_height, max_height]`.
pub open spec fn height_spec(cfg: ChunkConfig, x: int, z: int) -> int {
    let sx = noise_coord_spec(x, cfg.noise_frequency as int);
    let sz = noise_coord_spec(z, cfg.noise_frequency as int);
    let cx = div_floor(sx, FP_ONE as int);
    let cz = div_floor(sz, FP_ONE as int);
    let fx = sx % (FP_ONE as int);
    let fz = sz % (FP_ONE as int);
    let v00 = corner_value_spec(cfg.noise_seed, cx, cz);
    let v10 = corner_value_spec(cfg.noise_seed, cx + 1, cz);
    let v01 = corner_value_spec(cfg.noise_seed, cx, cz + 1);
    let v11 = corner_value_spec(cfg.noise_seed, cx + 1, cz + 1);
    let vx0 = lerp_spec(v00, v10, fx);
    let vx1 = lerp_spec(v01, v11, fx);
    let v = lerp_spec(vx0, vx1, fz);
    div_floor(v * cfg.max_height, FP_ONE as int)
}

/// Samples the heightfield at the planar fixed-point point `(x, z)`.
///
/// Deterministic: the result is a function of `(x, z)` and the
/// configuration's seed, frequency and amplitude alone, as the equality
/// with [`height_spec`] states. The height always lies within the
/// configured amplitude.
#[verifier::rlimit(100)]
pub fn height(cfg: &ChunkConfig, x: i64, z: i64) -> (h: i64)
    requires
        cfg.valid(),
        -SAMPLE_LIMIT <= x <= SAMPLE_LIMIT,
        -SAMPLE_LIMIT <= z <= SAMPLE_LIMIT,
    ensures
        h == height_spec(*cfg, x as int, z as int),
        -cfg.max_height <= h <= cfg.max_height,
{
    let sx: i64 = noise_coord(x, cfg.noise_frequency);
    let sz: i64 = noise_coord(z, cfg.noise_frequency);
    let cx: i64 = floor_div(sx, FP_ONE);
    let cz: i64 = floor_div(sz, FP_ONE);
    proof {
        crate::fixed::lemma_div_floor_bounded(sx as int, FP_ONE as int, LATTICE_LIMIT as int);
        crate::fixed::lemma_div_floor_bounded(sz as int, FP_ONE as int, LATTICE_LIMIT as int);
    }
    let fx: i64 = sx - cx * FP_ONE;
    let fz: i64 = sz - cz * FP_ONE;
    proof {
        vstd::arithmetic::div_mod::lemma_fundamental_div_mod(sx as int, FP_ONE as int);
        vstd::arithmetic::div_mod::lemma_fundamental_div_mod(sz as int, FP_ONE as int);
        vstd::arithmetic::div_mod::lemma_mod_bound(sx as int, FP_ONE as int);
        vstd::arithmetic::div_mod::lemma_mod_bound(sz as int, FP_ONE as int);
    }
    let v00: i64 = corner_value(cfg.noise_seed, cx, cz);
    let v10: i64 = corner_value(cfg.noise_seed, cx + 1, cz);
    let v01: i64 = corner_value(cfg.noise_seed, cx, cz + 1);
    let v11: i64 = corner_value(cfg.noise_seed, cx + 1, cz + 1);
    let vx0: i64 = lerp(v00, v10, fx);
    let vx1: i64 = lerp(v01, v11, fx);
    let v: i64 = lerp(vx0, vx1, fz);
    proof {
        assert(-(FP_ONE * MAX_AMPLITUDE) <= v * cfg.max_height
            <= FP_ONE * MAX_AMPLITUDE) by (nonlinear_arith)
            requires
                -FP_ONE <= v <= FP_ONE,
                0 <= cfg.max_height <= MAX_AMPLITUDE,
        ;
    }
    let scaled: i64 = floor_div(v * cfg.max_height, FP_ONE);
    proof {
        lemma_amplitude_bounds(v as int, cfg.max_height as int);
    }
    scaled
}

/// `v * max_height / FP_ONE` stays within `[-max_height, max_height]`
/// when `v` is a unit fixed-point value.
proof fn lemma_amplitude_bounds(v: int, mh: int)
    by (nonlinear_arith)
    requires
        -FP_ONE <= v <= FP_ONE,
        0 <= mh <= MAX_AMPLITUDE,
    ensures
        -mh <= div_floor(v * mh, FP_ONE as int) <= mh,
{
}

fn noise_coord(p: i64, frequency: i64) -> (s: i64)
    requires
        -SAMPLE_LIMIT <= p <= SAMPLE_LIMIT,
        0 < frequency <= MAX_NOISE_FREQUENCY,
    ensures
        s == noise_coord_spec(p as int, frequency as int),
        -LATTICE_LIMIT * FP_ONE <= s <= LATTICE_LIMIT * FP_ONE,
{
    proof {
        assert(-SAMPLE_LIMIT * MAX_NOISE_FREQUENCY <= p * frequency
            <= SAMPLE_LIMIT * MAX_NOISE_FREQUENCY) by (nonlinear_arith)
            requires
                -SAMPLE_LIMIT <= p <= SAMPLE_LIMIT,
                0 < frequency <= MAX_NOISE_FREQUENCY,
        ;
    }
    let prod: i64 = p * frequency;
    let s: i64 = floor_div(prod, FP_ONE);
    proof {
        lemma_noise_coord_bounds(p as int, frequency as int);
    }
    s
}

/// Dividing the bounded product `p * frequency` by `FP_ONE` keeps the
/// noise coordinate within lattice range.
proof fn lemma_noise_coord_bounds(p: int, frequency: int)
    by (nonlinear_arith)
    requires
        -SAMPLE_LIMIT <= p <= SAMPLE_LIMIT,
        0 < frequency <= MAX_NOISE_FREQUENCY,
    ensures
        -LATTICE_LIMIT * FP_ONE <= div_floor(p * frequency, FP_ONE as int)
            <= LATTICE_LIMIT * FP_ONE,
{
}

} // verus!
