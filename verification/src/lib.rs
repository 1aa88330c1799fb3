//! Chunk-based level streaming and sensor-driven world mutation.
//!
//! A level is a sparse grid of fixed-size chunks. Each chunk is described by a
//! named descriptor (an ordered list of geometry elements), spawned and
//! despawned at runtime, and may carry sensors that swap, replace or move
//! chunks when the player enters them. The layout, descriptors and elements
//! round-trip through a plain-text content format.
//!
//! All lengths are integers in thousandths of a world unit, so that chunk
//! transforms and collider extents are exact.

pub mod chunk;
pub mod chunk_assets;
pub mod codec;
pub mod editor;
pub mod geometry;
pub mod interactions;
pub mod level;
pub mod sensor;
pub mod stash;
pub mod utils;

use vstd::prelude::*;

verus! {

/// Edge length of one chunk of the level grid, in thousandths of a world unit.
pub const CHUNK_SIZE: i64 = 5000;

} // verus!
