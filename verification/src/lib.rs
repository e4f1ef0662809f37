//! Streaming of procedurally generated heightfield terrain around a moving
//! observer.
//!
//! The world is an unbounded grid of square chunks. Each chunk is identified
//! by an integer coordinate, generated deterministically from a noise-based
//! heightfield, and kept resident only while it lies near the observer.
//! All world-space scalars are fixed-point numbers (see [`fixed`]), so that
//! every geometric computation is exact and verifiable.

use vstd::prelude::*;

pub mod collider;
pub mod config;
pub mod controller;
pub mod fixed;
pub mod heightfield;
pub mod mesh;
pub mod normal;
pub mod tracker;

verus! {

/// The ways in which terrain operations can fail.
///
/// `InvalidConfig` is fatal and reported once, when a configuration is first
/// checked. `DegenerateGeometry` is recoverable per chunk: the chunk is kept
/// as a renderable without a collider. `DuplicateChunk` and `UnknownChunk`
/// describe residency-tracker misuse; the verified tracker operations rule
/// them out by precondition, and unverified callers must test first.
#[derive(Clone, Copy, PartialEq, Eq, Structural, Debug)]
pub enum TerrainError {
    InvalidConfig,
    DegenerateGeometry,
    DuplicateChunk,
    UnknownChunk,
}

} // verus!
