//! Simulation core of a side-scrolling avoidance game.
//!
//! World coordinates, speeds and sizes are fixed-point numbers: an `i64`
//! counts ticks of `1 / SCALE` of a world unit. All physics, collision,
//! spawning and lifecycle rules are stated and proved over that integer
//! model; rendering, input polling and frame timing stay outside the
//! library and hand it plain values (a frame delta, the keys that are
//! down, the screen size in ticks).

pub mod components;
pub mod fixed;
pub mod game;
pub mod spawn;
pub mod store;
pub mod systems;

use vstd::prelude::*;

verus! {

/// Fixed-point scale: one world unit is `SCALE` ticks.
pub const SCALE: i64 = 100_000;

/// Downward acceleration for entities with a gravity tag, in ticks per
/// second per second (490 world units).
pub const G: i64 = 49_000_000;

/// Bound on the magnitude of the vertical velocity, in ticks per second
/// (200 world units).
pub const MAX_SPEED: i64 = 20_000_000;

/// Impulse subtracted from the player's vertical velocity on a flap
/// (80 world units per second).
pub const BIRD_FLAP: i64 = 8_000_000;

/// Leftward speed of every obstacle, in ticks per second (200 world units).
pub const BARRIER_LEFT_SPEED: i64 = 20_000_000;

/// Threshold on the vertical speed below which the floor clamp of the
/// position integration is skipped (0.01 world units per second).
pub const VELOCITY_EPS: i64 = 1_000;

/// Largest frame delta the physics accepts, in ticks of a second (10 s).
pub const DT_LIMIT: i64 = 1_000_000;

/// Bound on coordinates at the start of a frame; integration may carry a
/// coordinate at most `POS_STEP_MAX` ticks past it.
pub const POS_BOUND: i64 = 1_000_000_000_000_000;

/// Largest change of one coordinate in one integration step:
/// `MAX_SPEED * DT_LIMIT / SCALE`.
pub const POS_STEP_MAX: i64 = 200_000_000;

/// Bound on collider and sprite dimensions, in ticks.
pub const SIZE_LIMIT: i64 = 10_000_000_000;

/// Bound on the screen width and height, in ticks (20 000 world units).
pub const SCREEN_LIMIT: i64 = 2_000_000_000;

/// Bound on a flap impulse, in ticks per second.
pub const IMPULSE_LIMIT: i64 = 1_000_000_000_000_000;

/// Smallest horizontal distance between two spawned obstacle pairs
/// (200 world units).
pub const TRACK_STEP_MIN: i64 = 20_000_000;

/// Largest horizontal distance between two spawned obstacle pairs
/// (500 world units).
pub const TRACK_STEP_MAX: i64 = 50_000_000;

/// Smallest divisor drawn for the gap radius (the gap radius is the
/// screen height divided by a number drawn from `[5, 7]`).
pub const GAP_DIV_MIN: i64 = 500_000;

/// Largest divisor drawn for the gap radius.
pub const GAP_DIV_MAX: i64 = 700_000;

/// Horizontal and vertical position of a freshly spawned player
/// (100 world units).
pub const PLAYER_START_POS: i64 = 10_000_000;

/// Horizontal position of the obstacle pair spawned on a restart
/// (1000 world units).
pub const RESTART_BARRIER_X: i64 = 100_000_000;

} // verus!
