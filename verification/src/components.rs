//! Components that the store attaches to entities.

use vstd::prelude::*;

verus! {

use crate::{IMPULSE_LIMIT, MAX_SPEED, SIZE_LIMIT};

/// Marker: the entity's vertical velocity accumulates gravity each frame.
#[derive(Clone, Copy)]
pub struct Gravity;

/// World-space center coordinate, in ticks.
#[derive(Clone, Copy)]
pub struct Position {
    pub x: i64,
    pub y: i64,
}

impl Position {
    pub fn new(x: i64, y: i64) -> (r: Self)
        ensures
            r == (Position { x, y }),
    {
        Position { x, y }
    }
}

/// Signed speed per axis, in ticks per second.
#[derive(Clone, Copy)]
pub struct Velocity {
    pub x: i64,
    pub y: i64,
}

impl Velocity {
    pub fn new(x: i64, y: i64) -> (r: Self)
        ensures
            r == (Velocity { x, y }),
    {
        Velocity { x, y }
    }
}

/// A width and height, in ticks.
#[derive(Clone, Copy)]
pub struct Size {
    pub width: i64,
    pub height: i64,
}

/// Whether a size fits the machine bounds the physics assumes.
pub open spec fn size_wf(s: Size) -> bool {
    0 <= s.width <= SIZE_LIMIT && 0 <= s.height <= SIZE_LIMIT
}

/// Draw parameters for a sprite: an optional destination size and a
/// half-turn rotation flag. The renderer alone interprets them.
#[derive(Clone, Copy)]
pub struct DrawParams {
    pub dest_size: Option<Size>,
    pub rotated_half_turn: bool,
}

/// A sprite drawn centered at the entity's position: an opaque texture
/// handle with its draw parameters. Physics, collision and lifecycle
/// never read it.
#[derive(Clone, Copy)]
pub struct TextureRender {
    pub texture: u64,
    pub params: DrawParams,
}

impl TextureRender {
    pub fn new(texture: u64, params: DrawParams) -> (r: Self)
        ensures
            r == (TextureRender { texture, params }),
    {
        TextureRender { texture, params }
    }
}

/// Non-negative axis-aligned bounding box, centered on the entity's
/// position, in ticks.
#[derive(Clone, Copy)]
pub struct RectangleCollider {
    pub width: i64,
    pub height: i64,
}

impl RectangleCollider {
    pub fn new(width: i64, height: i64) -> (r: Self)
        requires
            0 <= width <= SIZE_LIMIT,
            0 <= height <= SIZE_LIMIT,
        ensures
            r == (RectangleCollider { width, height }),
    {
        RectangleCollider { width, height }
    }
}

/// Impulse subtracted from the vertical velocity while the entity's
/// trigger key is down. The key is an opaque input identifier.
#[derive(Clone, Copy)]
pub struct Flapable {
    pub velocity_sub: i64,
    pub key: u32,
}

impl Flapable {
    pub fn new(velocity_sub: i64, key: u32) -> (r: Self)
        requires
            0 <= velocity_sub <= IMPULSE_LIMIT,
        ensures
            r == (Flapable { velocity_sub, key }),
    {
        Flapable { velocity_sub, key }
    }
}

/// Marker: the entity is despawned once it crosses the left or bottom
/// boundary of the screen.
#[derive(Clone, Copy)]
pub struct DieWhenOutOfScreen;

/// The component set of one entity; each component is attached
/// independently.
#[derive(Clone, Copy)]
pub struct Components {
    pub position: Option<Position>,
    pub velocity: Option<Velocity>,
    pub collider: Option<RectangleCollider>,
    pub flap: Option<Flapable>,
    pub render: Option<TextureRender>,
    pub gravity: Option<Gravity>,
    pub die_when_out_of_screen: Option<DieWhenOutOfScreen>,
}

/// Machine bounds on a component set: collider dimensions are
/// non-negative and bounded, speeds respect the global speed bound, and
/// a flap impulse is non-negative and bounded.
pub open spec fn components_wf(c: Components) -> bool {
    &&& (c.collider is Some ==> 0 <= c.collider->0.width <= SIZE_LIMIT && 0 <= c.collider->0.height
        <= SIZE_LIMIT)
    &&& (c.velocity is Some ==> -MAX_SPEED <= c.velocity->0.x <= MAX_SPEED && -MAX_SPEED
        <= c.velocity->0.y <= MAX_SPEED)
    &&& (c.flap is Some ==> 0 <= c.flap->0.velocity_sub <= IMPULSE_LIMIT)
}

} // verus!
