//! Bodies. Positions, velocities and radii are fixed-point integers in a unit of the caller's
//! choosing; velocities are in units per tick.

use vstd::prelude::*;

verus! {

/// Bound on each coordinate of a position or velocity that the kernel computes with.
pub const COORD_LIMIT: i128 = 16_777_216;

/// Bound on a ball's radius.
pub const RADIUS_LIMIT: i128 = 65_536;

/// A restitution coefficient `c` in `[0, 1]` is written as the integer `c * RESTITUTION_SCALE`.
pub const RESTITUTION_SCALE: i128 = 1000;

/// A 2-D vector of fixed-point integers.
#[derive(Clone, Copy, Debug, PartialEq, Eq, Structural)]
pub struct Vec2 {
    pub x: i128,
    pub y: i128,
}

/// A disc body. Its mass is `radius * radius` and is never stored.
#[derive(Clone, Copy, Debug, PartialEq, Eq, Structural)]
pub struct Ball {
    pub radius: i128,
    pub position: Vec2,
    pub velocity: Vec2,
}

pub open spec fn abs_le(v: int, lim: int) -> bool {
    -lim <= v <= lim
}

/// Every coordinate of the ball's position and velocity is within `lim`, and its radius is valid.
pub open spec fn within(b: Ball, lim: int) -> bool {
    &&& 0 < b.radius <= RADIUS_LIMIT
    &&& abs_le(b.position.x as int, lim)
    &&& abs_le(b.position.y as int, lim)
    &&& abs_le(b.velocity.x as int, lim)
    &&& abs_le(b.velocity.y as int, lim)
}

/// The ball lies in the working range of the kernel.
pub open spec fn in_range(b: Ball) -> bool {
    within(b, COORD_LIMIT as int)
}

pub open spec fn mass(b: Ball) -> int {
    b.radius * b.radius
}

pub open spec fn valid_restitution(c: int) -> bool {
    0 <= c <= RESTITUTION_SCALE
}

impl Ball {
    /// A ball at rest at `position`.
    pub fn at_rest(position: Vec2, radius: i128) -> (r: Ball)
        ensures
            r.position == position,
            r.radius == radius,
            r.velocity == (Vec2 { x: 0, y: 0 }),
    {
        Ball { radius, position, velocity: Vec2 { x: 0, y: 0 } }
    }

    /// Runtime test of `in_range`.
    pub fn is_in_range(&self) -> (r: bool)
        ensures
            r == in_range(*self),
    {
        0 < self.radius && self.radius <= RADIUS_LIMIT && -COORD_LIMIT <= self.position.x
            && self.position.x <= COORD_LIMIT && -COORD_LIMIT <= self.position.y
            && self.position.y <= COORD_LIMIT && -COORD_LIMIT <= self.velocity.x
            && self.velocity.x <= COORD_LIMIT && -COORD_LIMIT <= self.velocity.y
            && self.velocity.y <= COORD_LIMIT
    }
}

} // verus!
