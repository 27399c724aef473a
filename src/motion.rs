use vstd::prelude::*;

use crate::ball::{in_range, valid_restitution, within, Ball, Vec2, COORD_LIMIT, RESTITUTION_SCALE};

verus! {

/// One tick of motion: gravity is added to the vertical velocity, then the velocity to the
/// position.
pub open spec fn integrated(b: Ball, gravity: int) -> Ball {
    let vy = b.velocity.y + gravity;
    Ball {
        radius: b.radius,
        position: Vec2 {
            x: (b.position.x + b.velocity.x) as i128,
            y: (b.position.y + vy) as i128,
        },
        velocity: Vec2 { x: b.velocity.x, y: vy as i128 },
    }
}

/// A velocity component reflected off a wall and scaled by the wall restitution
/// (out of `RESTITUTION_SCALE`), rounded down.
pub open spec fn reflected(v: int, c_wall: int) -> int {
    (-(v * c_wall)) / (RESTITUTION_SCALE as int)
}

/// One axis of the wall check on `[0, bound]`: a ball whose edge is past the lower bound is
/// placed on it, else one past the upper bound is placed on that; in both cases the velocity
/// component is reflected.
pub open spec fn walled(p: int, v: int, r: int, bound: int, c_wall: int) -> (int, int) {
    if p < r {
        (r, reflected(v, c_wall))
    } else if p > bound - r {
        (bound - r, reflected(v, c_wall))
    } else {
        (p, v)
    }
}

/// The ball after the wall check on the domain `[0, width] x [0, height]`, x axis then y axis.
pub open spec fn bounced(b: Ball, width: int, height: int, c_wall: int) -> Ball {
    let (px, vx) = walled(b.position.x as int, b.velocity.x as int, b.radius as int, width, c_wall);
    let (py, vy) = walled(
        b.position.y as int,
        b.velocity.y as int,
        b.radius as int,
        height,
        c_wall,
    );
    Ball {
        radius: b.radius,
        position: Vec2 { x: px as i128, y: py as i128 },
        velocity: Vec2 { x: vx as i128, y: vy as i128 },
    }
}

pub open spec fn valid_gravity(g: int) -> bool {
    -COORD_LIMIT <= g <= COORD_LIMIT
}

pub open spec fn valid_domain(width: int, height: int) -> bool {
    0 < width <= COORD_LIMIT && 0 < height <= COORD_LIMIT
}

/// Bound on the coordinates of a ball that has moved one tick from the working range.
pub open spec fn moved(b: Ball) -> bool {
    within(b, 4 * COORD_LIMIT)
}

/// Advances every ball by one tick of motion under `gravity`.
pub fn integrate(balls: &mut Vec<Ball>, gravity: i128)
    requires
        forall|k: int| 0 <= k < old(balls)@.len() ==> in_range(#[trigger] old(balls)@[k]),
        valid_gravity(gravity as int),
    ensures
        final(balls)@.len() == old(balls)@.len(),
        forall|k: int|
            0 <= k < old(balls)@.len() ==> #[trigger] final(balls)@[k] == integrated(
                old(balls)@[k],
                gravity as int,
            ),
        forall|k: int| 0 <= k < old(balls)@.len() ==> moved(#[trigger] final(balls)@[k]),
{
    let n = balls.len();
    let mut i: usize = 0;
    while i < n
        invariant
            n == balls@.len(),
            n == old(balls)@.len(),
            valid_gravity(gravity as int),
            0 <= i <= n,
            forall|k: int| 0 <= k < n ==> in_range(#[trigger] old(balls)@[k]),
            forall|k: int|
                0 <= k < i ==> #[trigger] balls@[k] == integrated(old(balls)@[k], gravity as int),
            forall|k: int| 0 <= k < i ==> moved(#[trigger] balls@[k]),
            forall|k: int| i <= k < n ==> #[trigger] balls@[k] == old(balls)@[k],
        decreases n - i,
    {
        let b = balls[i];
        let vy = b.velocity.y + gravity;
        let nb = Ball {
            radius: b.radius,
            position: Vec2 { x: b.position.x + b.velocity.x, y: b.position.y + vy },
            velocity: Vec2 { x: b.velocity.x, y: vy },
        };
        balls.set(i, nb);
        i = i + 1;
    }
}

/// One axis of the wall check, computed.
fn wall_axis(p: i128, v: i128, r: i128, bound: i128, c_wall: i128) -> (res: (i128, i128))
    requires
        -4 * COORD_LIMIT <= p <= 4 * COORD_LIMIT,
        -4 * COORD_LIMIT <= v <= 4 * COORD_LIMIT,
        0 < r <= COORD_LIMIT,
        0 < bound <= COORD_LIMIT,
        valid_restitution(c_wall as int),
    ensures
        (res.0 as int, res.1 as int) == walled(p as int, v as int, r as int, bound as int, c_wall as int),
        -4 * COORD_LIMIT <= res.0 <= 4 * COORD_LIMIT,
        -4 * COORD_LIMIT <= res.1 <= 4 * COORD_LIMIT,
{
    assert(-4 * COORD_LIMIT * 1000 <= v * c_wall <= 4 * COORD_LIMIT * 1000) by (nonlinear_arith)
        requires
            -4 * COORD_LIMIT <= v <= 4 * COORD_LIMIT,
            0 <= c_wall <= 1000,
    ;
    assert(-4 * COORD_LIMIT <= reflected(v as int, c_wall as int) <= 4 * COORD_LIMIT) by (nonlinear_arith)
        requires
            -4 * COORD_LIMIT * 1000 <= v * c_wall <= 4 * COORD_LIMIT * 1000,
            reflected(v as int, c_wall as int) == (-(v * c_wall)) / 1000,
    ;
    if p < r {
        (r, crate::arith::floor_div(-(v * c_wall), RESTITUTION_SCALE))
    } else if p > bound - r {
        (bound - r, crate::arith::floor_div(-(v * c_wall), RESTITUTION_SCALE))
    } else {
        (p, v)
    }
}

/// Keeps every ball inside the domain `[0, width] x [0, height]`, reflecting the velocity
/// component of each wall it touched and scaling it by `c_wall` (out of `RESTITUTION_SCALE`).
pub fn resolve_walls(balls: &mut Vec<Ball>, width: i128, height: i128, c_wall: i128)
    requires
        forall|k: int| 0 <= k < old(balls)@.len() ==> moved(#[trigger] old(balls)@[k]),
        valid_domain(width as int, height as int),
        valid_restitution(c_wall as int),
    ensures
        final(balls)@.len() == old(balls)@.len(),
        forall|k: int|
            0 <= k < old(balls)@.len() ==> #[trigger] final(balls)@[k] == bounced(
                old(balls)@[k],
                width as int,
                height as int,
                c_wall as int,
            ),
        forall|k: int| 0 <= k < old(balls)@.len() ==> moved(#[trigger] final(balls)@[k]),
{
    let n = balls.len();
    let mut i: usize = 0;
    while i < n
        invariant
            n == balls@.len(),
            n == old(balls)@.len(),
            valid_domain(width as int, height as int),
            valid_restitution(c_wall as int),
            0 <= i <= n,
            forall|k: int| 0 <= k < n ==> moved(#[trigger] old(balls)@[k]),
            forall|k: int|
                0 <= k < i ==> #[trigger] balls@[k] == bounced(
                    old(balls)@[k],
                    width as int,
                    height as int,
                    c_wall as int,
                ),
            forall|k: int| 0 <= k < i ==> moved(#[trigger] balls@[k]),
            forall|k: int| i <= k < n ==> #[trigger] balls@[k] == old(balls)@[k],
        decreases n - i,
    {
        let b = balls[i];
        let (px, vx) = wall_axis(b.position.x, b.velocity.x, b.radius, width, c_wall);
        let (py, vy) = wall_axis(b.position.y, b.velocity.y, b.radius, height, c_wall);
        let nb = Ball {
            radius: b.radius,
            position: Vec2 { x: px, y: py },
            velocity: Vec2 { x: vx, y: vy },
        };
        balls.set(i, nb);
        i = i + 1;
    }
}

} // verus!
