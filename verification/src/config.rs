//! Chunk identity and the process-wide terrain configuration.

use vstd::prelude::*;
use crate::TerrainError;

verus! {

/// Identifies one chunk on the unbounded terrain grid.
///
/// Chunk `(cx, cz)` covers the square of world space from
/// `(cx * chunk_size, cz * chunk_size)` (inclusive) to
/// `((cx + 1) * chunk_size, (cz + 1) * chunk_size)` (exclusive),
/// where `chunk_size` is derived from the configuration.
#[derive(Clone, Copy, PartialEq, Eq, Structural, Hash, Debug)]
pub struct ChunkCoordinate {
    pub cx: i64,
    pub cz: i64,
}

impl ChunkCoordinate {
    /// The coordinate as a pair of mathematical integers, the form the
    /// contracts quantify over.
    pub open spec fn model(&self) -> (int, int) {
        (self.cx as int, self.cz as int)
    }
}

/// Largest accepted number of vertices per chunk edge.
pub const MAX_RESOLUTION: u32 = 1024;

/// Largest accepted cell size, in fixed-point world units (1024 units).
pub const MAX_WORLD_SCALE: i64 = 0x4000000;

/// Largest accepted view radius, in fixed-point world units (about a
/// million world units).
pub const MAX_VIEW_RADIUS: i64 = 0x1000000000;

/// Largest accepted heightfield amplitude, in fixed-point world units.
pub const MAX_AMPLITUDE: i64 = 0x40000000;

/// Largest accepted noise frequency, in fixed-point cycles per world unit.
pub const MAX_NOISE_FREQUENCY: i64 = 0x100000;

/// Immutable terrain configuration, fixed for the lifetime of a
/// [`crate::tracker::TerrainState`].
///
/// All lengths are fixed-point world units ([`crate::fixed::FP_ONE`] steps
/// per unit).
#[derive(Clone, Copy, PartialEq, Eq, Structural, Debug)]
pub struct ChunkConfig {
    /// Vertices per chunk edge; at least 2.
    pub chunk_resolution: u32,
    /// World units per grid cell (the spacing between adjacent vertices).
    pub world_scale: i64,
    /// Chunks whose footprint intersects this radius around the observer
    /// stay resident.
    pub view_radius: i64,
    /// Amplitude of the heightfield: every height lies within
    /// `[-max_height, max_height]`.
    pub max_height: i64,
    /// Seed of the deterministic heightfield noise.
    pub noise_seed: u64,
    /// Spatial frequency of the heightfield noise.
    pub noise_frequency: i64,
}

impl ChunkConfig {
    /// A configuration the library accepts: the lower bounds are the ones
    /// rejected as `InvalidConfig`, and the upper bounds keep every
    /// intermediate fixed-point product inside `i64`.
    pub open spec fn valid(&self) -> bool {
        &&& 2 <= self.chunk_resolution <= MAX_RESOLUTION
        &&& 0 < self.world_scale <= MAX_WORLD_SCALE
        &&& 0 < self.view_radius <= MAX_VIEW_RADIUS
        &&& 0 <= self.max_height <= MAX_AMPLITUDE
        &&& 0 < self.noise_frequency <= MAX_NOISE_FREQUENCY
    }

    /// Edge length of one chunk in fixed-point world units:
    /// `chunk_resolution * world_scale`.
    pub open spec fn chunk_size_spec(&self) -> int {
        self.chunk_resolution * self.world_scale
    }

    /// Checks the configuration once, at startup.
    ///
    /// Returns `Ok` exactly on valid configurations, and `InvalidConfig`
    /// otherwise.
    pub fn validate(&self) -> (r: Result<(), TerrainError>)
        ensures
            r is Ok <==> self.valid(),
            r is Err ==> r == Err::<(), TerrainError>(TerrainError::InvalidConfig),
    {
        if 2 <= self.chunk_resolution && self.chunk_resolution <= MAX_RESOLUTION
            && 0 < self.world_scale && self.world_scale <= MAX_WORLD_SCALE
            && 0 < self.view_radius && self.view_radius <= MAX_VIEW_RADIUS
            && 0 <= self.max_height && self.max_height <= MAX_AMPLITUDE
            && 0 < self.noise_frequency && self.noise_frequency <= MAX_NOISE_FREQUENCY
        {
            Ok(())
        } else {
            Err(TerrainError::InvalidConfig)
        }
    }

    /// Edge length of one chunk in fixed-point world units.
    pub fn chunk_size(&self) -> (s: i64)
        requires
            self.valid(),
        ensures
            s == self.chunk_size_spec(),
            0 < s <= MAX_RESOLUTION * MAX_WORLD_SCALE,
    {
        proof {
            lemma_chunk_size_positive(*self);
        }
        (self.chunk_resolution as i64) * self.world_scale
    }

}

/// A valid configuration's chunk size is positive and within the range
/// every fixed-point product in the library tolerates.
pub proof fn lemma_chunk_size_positive(cfg: ChunkConfig)
    requires
        cfg.valid(),
    ensures
        0 < cfg.chunk_size_spec() <= MAX_RESOLUTION * MAX_WORLD_SCALE,
{
    assert(0 < cfg.chunk_resolution * cfg.world_scale && cfg.chunk_resolution * cfg.world_scale
        <= MAX_RESOLUTION * MAX_WORLD_SCALE) by (nonlinear_arith)
        requires
            0 < cfg.chunk_resolution <= MAX_RESOLUTION,
            0 < cfg.world_scale <= MAX_WORLD_SCALE,
    ;
}

} // verus!
