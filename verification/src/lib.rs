//! Core simulation of a 2D tile-based platformer: deterministic terrain
//! generation over a sampled noise field, a dense tile-occupancy grid,
//! an integer-arithmetic kinematic movement controller, a slotted inventory
//! with stacking and pickup cooldowns, and a damage/death/drop event
//! pipeline, all with machine-checked contracts.
//!
//! World-space quantities are integers: one pixel is `SUB` sub-units, one
//! tile is `TILE_SUB` sub-units, and one simulation step is the unit of
//! time, so velocities and accelerations are in sub-units per step.

pub mod combat;
pub mod grid;
pub mod inventory;
pub mod physics;
pub mod registry;
pub mod sim;
pub mod sweep;
pub mod worldgen;

use vstd::prelude::*;

verus! {

/// Sub-units per pixel of world space.
pub const SUB: i64 = 1000;

/// Side length of a square tile, in pixels.
pub const TILE_SIZE: i64 = 18;

/// Side length of a square tile, in sub-units.
pub const TILE_SUB: i64 = 18000;

/// Level width, in tiles.
pub const LEVEL_WIDTH: usize = 100;

/// Level height, in tiles.
pub const LEVEL_HEIGHT: usize = 100;

/// Width of the render target the level must cover, in pixels.
pub const RESOLUTION_WIDTH: i64 = 1280;

/// Height of the render target the level must cover, in pixels.
pub const RESOLUTION_HEIGHT: i64 = 720;

/// Startup-configuration check, discharged once at verification time
/// rather than ever at run time: the level, in pixels, is large enough
/// to fill the render resolution.
pub proof fn lemma_level_covers_resolution()
    ensures
        LEVEL_WIDTH * TILE_SIZE >= RESOLUTION_WIDTH,
        LEVEL_HEIGHT * TILE_SIZE >= RESOLUTION_HEIGHT,
{
}

} // verus!
