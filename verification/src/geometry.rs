//! Simulation-space value types and the simulation-to-pixel projection.
//!
//! Coordinates are whole simulation units; one simulation unit equals one
//! pixel, so a particle's pixel-space anchor is the plain translation of
//! its position by the viewport's top-left corner. The anchor may lie
//! outside the canvas: clipping is the rasterizer's business, never the
//! projection's.
use vstd::prelude::*;

verus! {

/// A 2D coordinate in whole simulation units. Used both as a position and
/// as an extent; values may be negative, though an extent used as a
/// viewport size must be positive.
#[derive(Clone, Copy, Debug, PartialEq, Eq, Structural)]
pub struct Vec2f {
    pub x: i64,
    pub y: i64,
}

/// One simulated point at one instant. `mass` and `velocity` are carried
/// for the host but not read by rendering; only `position` reaches the
/// raster.
#[derive(Clone, Copy, Debug, PartialEq, Eq, Structural)]
pub struct PhysicsParticle {
    pub mass: i64,
    pub velocity: Vec2f,
    pub position: Vec2f,
}

/// The simulation-space rectangle mapped 1:1 onto the output image's pixel
/// grid. `size` also fixes the output image's pixel dimensions.
#[derive(Clone, Copy, Debug, PartialEq, Eq, Structural)]
pub struct EnvironmentBounds {
    pub top_left: Vec2f,
    pub size: Vec2f,
}

/// Largest accepted viewport edge, in pixels.
pub const MAX_VIEWPORT_DIM: u32 = 0x4000_0000;

/// The marker radius used when the caller specifies none.
pub const DEFAULT_MARKER_RADIUS: u32 = 5;

/// A viewport is well formed when both extents are positive, neither edge
/// exceeds [`MAX_VIEWPORT_DIM`], and the pixel count fits an image buffer.
pub open spec fn bounds_valid(b: EnvironmentBounds) -> bool {
    &&& 1 <= b.size.x <= MAX_VIEWPORT_DIM
    &&& 1 <= b.size.y <= MAX_VIEWPORT_DIM
    &&& b.size.x * b.size.y <= u32::MAX
}

/// The pixel-space anchor of a particle: its position translated by the
/// viewport's top-left corner. Unbounded: an anchor left of or above the
/// viewport is negative, one past it exceeds the canvas.
pub open spec fn anchor_of(p: PhysicsParticle, b: EnvironmentBounds) -> (int, int) {
    (p.position.x - b.top_left.x, p.position.y - b.top_left.y)
}

/// The marker radius for an optional caller choice: the caller's value
/// when given, the default otherwise.
pub fn marker_radius_or_default(radius: Option<u32>) -> (r: u32)
    ensures
        radius matches Some(v) ==> r == v,
        radius is None ==> r == DEFAULT_MARKER_RADIUS,
{
    match radius {
        Some(v) => v,
        None => DEFAULT_MARKER_RADIUS,
    }
}

/// A particle standing exactly on the viewport's top-left corner anchors
/// its marker at pixel `(0, 0)`.
pub proof fn lemma_anchor_at_origin(p: PhysicsParticle, b: EnvironmentBounds)
    requires
        p.position == b.top_left,
    ensures
        anchor_of(p, b) == (0int, 0int),
{
}

} // verus!
