use vstd::prelude::*;

use crate::arith::{
    ceil_div, ceil_isqrt, ceil_root, floor_div, lemma_ceil_root, lemma_div_shrinks,
};
use crate::ball::{in_range, mass, valid_restitution, Ball, Vec2, RESTITUTION_SCALE};

verus! {

/// Horizontal offset from the first ball's centre to the second's.
pub open spec fn dx(b1: Ball, b2: Ball) -> int {
    b2.position.x - b1.position.x
}

/// Vertical offset from the first ball's centre to the second's.
pub open spec fn dy(b1: Ball, b2: Ball) -> int {
    b2.position.y - b1.position.y
}

/// Squared distance between the two centres.
pub open spec fn dist_sq(b1: Ball, b2: Ball) -> int {
    dx(b1, b2) * dx(b1, b2) + dy(b1, b2) * dy(b1, b2)
}

pub open spec fn radii(b1: Ball, b2: Ball) -> int {
    b1.radius + b2.radius
}

/// The two discs overlap: the centre distance is strictly below the sum of the radii.
pub open spec fn overlaps(b1: Ball, b2: Ball) -> bool {
    dist_sq(b1, b2) < radii(b1, b2) * radii(b1, b2)
}

/// Relative velocity along the line of centres, scaled by the centre distance:
/// `(u2 - u1) . d`. Negative when the balls approach each other.
pub open spec fn closing(b1: Ball, b2: Ball) -> int {
    (b2.velocity.x - b1.velocity.x) * dx(b1, b2) + (b2.velocity.y - b1.velocity.y) * dy(b1, b2)
}

/// Common denominator of the velocity changes: `(m1 + m2) * |d|^2`, with the restitution scale.
pub open spec fn impulse_denom(b1: Ball, b2: Ball) -> int {
    RESTITUTION_SCALE * (mass(b1) + mass(b2)) * dist_sq(b1, b2)
}

/// Numerator of the first ball's velocity change, per unit of the offset `d`:
/// `m2 * (1 + c) * ((u2 - u1) . d)`.
pub open spec fn push_first(b1: Ball, b2: Ball, c: int) -> int {
    mass(b2) * (RESTITUTION_SCALE + c) * closing(b1, b2)
}

/// Numerator of the second ball's velocity change: `m1 * (1 + c) * ((u1 - u2) . d)`.
pub open spec fn push_second(b1: Ball, b2: Ball, c: int) -> int {
    -(mass(b1) * (RESTITUTION_SCALE + c) * closing(b1, b2))
}

/// One component of the contact offset `d * R / |d|` for a component `d` of the offset
/// between the centres, sum of radii `R` and squared distance `d2`: its magnitude is rounded
/// up, so that a pair placed at this offset does not overlap.
pub open spec fn contact_part(d: int, r: int, d2: int) -> int {
    let m = ceil_root(ceil_div(d * d * (r * r), d2));
    if d < 0 {
        -m
    } else {
        m
    }
}

/// The pair after an impulse along the line of centres and positional separation.
/// Velocity changes are `push * d / denom`, rounded down; the perpendicular part of each
/// velocity is kept. The centres are then set apart by the contact offset, each ball moving
/// half of the change of the offset (the first ball's half rounded down), so that the
/// midpoint stays where it was. With coincident centres there is no line of centres and the
/// pair is left as it is.
pub open spec fn collide(b1: Ball, b2: Ball, c: int) -> (Ball, Ball) {
    if dist_sq(b1, b2) == 0 {
        (b1, b2)
    } else {
        let q = impulse_denom(b1, b2);
        let p1 = push_first(b1, b2, c);
        let p2 = push_second(b1, b2, c);
        let cx = contact_part(dx(b1, b2), radii(b1, b2), dist_sq(b1, b2));
        let cy = contact_part(dy(b1, b2), radii(b1, b2), dist_sq(b1, b2));
        let ox = b1.position.x + (dx(b1, b2) - cx) / 2;
        let oy = b1.position.y + (dy(b1, b2) - cy) / 2;
        (
            Ball {
                radius: b1.radius,
                position: Vec2 { x: ox as i128, y: oy as i128 },
                velocity: Vec2 {
                    x: (b1.velocity.x + (p1 * dx(b1, b2)) / q) as i128,
                    y: (b1.velocity.y + (p1 * dy(b1, b2)) / q) as i128,
                },
            },
            Ball {
                radius: b2.radius,
                position: Vec2 { x: (ox + cx) as i128, y: (oy + cy) as i128 },
                velocity: Vec2 {
                    x: (b2.velocity.x + (p2 * dx(b1, b2)) / q) as i128,
                    y: (b2.velocity.y + (p2 * dy(b1, b2)) / q) as i128,
                },
            },
        )
    }
}

proof fn lemma_mul_abs_le(a: int, b: int, la: int, lb: int)
    requires
        -la <= a <= la,
        -lb <= b <= lb,
    ensures
        -(la * lb) <= a * b <= la * lb,
{
    assert(-(la * lb) <= a * b <= la * lb) by (nonlinear_arith)
        requires
            -la <= a <= la,
            -lb <= b <= lb,
    ;
}

/// For balls in range with distinct centres, every field that `collide` computes fits an
/// `i128`, so the new fields are exactly the integer formulas.
pub proof fn lemma_collide_fields(b1: Ball, b2: Ball, c: int)
    requires
        in_range(b1),
        in_range(b2),
        valid_restitution(c),
        dist_sq(b1, b2) > 0,
    ensures
        impulse_denom(b1, b2) > 0,
        ({
            let (a, b) = collide(b1, b2, c);
            let q = impulse_denom(b1, b2);
            let cx = contact_part(dx(b1, b2), radii(b1, b2), dist_sq(b1, b2));
            let cy = contact_part(dy(b1, b2), radii(b1, b2), dist_sq(b1, b2));
            &&& a.velocity.x == b1.velocity.x + (push_first(b1, b2, c) * dx(b1, b2)) / q
            &&& a.velocity.y == b1.velocity.y + (push_first(b1, b2, c) * dy(b1, b2)) / q
            &&& b.velocity.x == b2.velocity.x + (push_second(b1, b2, c) * dx(b1, b2)) / q
            &&& b.velocity.y == b2.velocity.y + (push_second(b1, b2, c) * dy(b1, b2)) / q
            &&& a.position.x == b1.position.x + (dx(b1, b2) - cx) / 2
            &&& a.position.y == b1.position.y + (dy(b1, b2) - cy) / 2
            &&& b.position.x == a.position.x + cx
            &&& b.position.y == a.position.y + cy
            &&& a.radius == b1.radius
            &&& b.radius == b2.radius
        }),
{
    let ddx = dx(b1, b2);
    let ddy = dy(b1, b2);
    let d2 = dist_sq(b1, b2);
    let m1 = mass(b1);
    let m2 = mass(b2);
    lemma_mul_abs_le(ddx, ddx, 0x200_0000, 0x200_0000);
    lemma_mul_abs_le(ddy, ddy, 0x200_0000, 0x200_0000);
    lemma_mul_abs_le(b1.radius as int, b1.radius as int, 0x1_0000, 0x1_0000);
    lemma_mul_abs_le(b2.radius as int, b2.radius as int, 0x1_0000, 0x1_0000);
    assert(m1 > 0 && m2 > 0) by (nonlinear_arith)
        requires
            b1.radius > 0,
            b2.radius > 0,
            m1 == b1.radius * b1.radius,
            m2 == b2.radius * b2.radius,
    ;
    let q = impulse_denom(b1, b2);
    assert(q > 0) by (nonlinear_arith)
        requires
            q == 1000 * (m1 + m2) * d2,
            m1 > 0,
            m2 > 0,
            d2 > 0,
    ;
    lemma_mul_abs_le(b2.velocity.x - b1.velocity.x, ddx, 0x200_0000, 0x200_0000);
    lemma_mul_abs_le(b2.velocity.y - b1.velocity.y, ddy, 0x200_0000, 0x200_0000);
    let cl = closing(b1, b2);
    lemma_mul_abs_le(m2, RESTITUTION_SCALE + c, 0x1_0000_0000, 2000);
    lemma_mul_abs_le(m1, RESTITUTION_SCALE + c, 0x1_0000_0000, 2000);
    lemma_mul_abs_le(m2 * (RESTITUTION_SCALE + c), cl, 8_589_934_592_000, 0x8_0000_0000_0000);
    lemma_mul_abs_le(m1 * (RESTITUTION_SCALE + c), cl, 8_589_934_592_000, 0x8_0000_0000_0000);
    let p1 = push_first(b1, b2, c);
    let p2 = push_second(b1, b2, c);
    let lp: int = 19_342_813_113_834_066_795_298_816_000;
    lemma_mul_abs_le(p1, ddx, lp, 0x200_0000);
    lemma_mul_abs_le(p1, ddy, lp, 0x200_0000);
    lemma_mul_abs_le(p2, ddx, lp, 0x200_0000);
    lemma_mul_abs_le(p2, ddy, lp, 0x200_0000);
    lemma_div_shrinks(p1 * ddx, q);
    lemma_div_shrinks(p1 * ddy, q);
    lemma_div_shrinks(p2 * ddx, q);
    lemma_div_shrinks(p2 * ddy, q);
    assert(ddx * ddx <= d2 && ddy * ddy <= d2) by (nonlinear_arith)
        requires
            d2 == ddx * ddx + ddy * ddy,
    ;
    lemma_contact_part(ddx, radii(b1, b2), d2);
    lemma_contact_part(ddy, radii(b1, b2), d2);
}

/// A contact offset component is a bounded integer no longer than the sum of radii.
pub proof fn lemma_contact_part(d: int, r: int, d2: int)
    requires
        0 < r <= 0x2_0000,
        -0x200_0000 <= d <= 0x200_0000,
        d * d <= d2,
        0 < d2,
    ensures
        0 <= ceil_div(d * d * (r * r), d2) <= r * r,
        -r <= contact_part(d, r, d2) <= r,
        d == 0 ==> contact_part(d, r, d2) == 0,
{
    let num = d * d * (r * r);
    assert(0 <= num <= d2 * (r * r)) by (nonlinear_arith)
        requires
            num == d * d * (r * r),
            d * d <= d2,
    ;
    assert(-(r * r) <= (-num) / d2 <= 0) by (nonlinear_arith)
        requires
            0 <= num <= d2 * (r * r),
            0 < d2,
    ;
    let t = ceil_div(num, d2);
    lemma_ceil_root(t);
    let m = ceil_root(t);
    assert(m <= r) by (nonlinear_arith)
        requires
            0 <= m,
            m == 0 || (m - 1) * (m - 1) < t,
            t <= r * r,
            0 < r,
    ;
    if d == 0 {
        assert(num == 0) by (nonlinear_arith)
            requires
                d == 0,
                num == d * d * (r * r),
        ;
    }
}

/// The contact offset component squared brackets `d * d * R * R / d2`, its exact square:
/// from below exactly, and from above within `2 * R + 1`.
pub proof fn lemma_contact_part_square(d: int, r: int, d2: int)
    requires
        0 < r <= 0x2_0000,
        -0x200_0000 <= d <= 0x200_0000,
        d * d <= d2,
        0 < d2,
    ensures
        ({
            let c = contact_part(d, r, d2);
            &&& d * d * (r * r) <= d2 * (c * c)
            &&& d2 * (c * c) < d * d * (r * r) + d2 * (2 * r + 1)
        }),
{
    lemma_contact_part(d, r, d2);
    let num = d * d * (r * r);
    let f = (-num) / d2;
    let t = ceil_div(num, d2);
    assert(d2 * f <= -num < d2 * f + d2) by (nonlinear_arith)
        requires
            d2 > 0,
            f == (-num) / d2,
    ;
    assert(t == -f);
    lemma_ceil_root(t);
    let m = ceil_root(t);
    let c = contact_part(d, r, d2);
    assert(c * c == m * m) by (nonlinear_arith)
        requires
            c == m || c == -m,
    ;
    assert(m * m <= t + 2 * r) by (nonlinear_arith)
        requires
            0 <= m <= r,
            m == 0 || (m - 1) * (m - 1) < t,
            0 <= t,
    ;
    assert(num <= d2 * (m * m)) by (nonlinear_arith)
        requires
            m * m >= t,
            d2 * f <= -num,
            t == -f,
            d2 > 0,
    ;
    assert(d2 * (m * m) < num + d2 * (2 * r + 1)) by (nonlinear_arith)
        requires
            m * m <= t + 2 * r,
            -num < d2 * f + d2,
            t == -f,
            d2 > 0,
    ;
}

/// Whether the two balls overlap.
pub fn check_collides(ball_1: &Ball, ball_2: &Ball) -> (r: bool)
    requires
        in_range(*ball_1),
        in_range(*ball_2),
    ensures
        r == overlaps(*ball_1, *ball_2),
{
    let ddx = ball_2.position.x - ball_1.position.x;
    let ddy = ball_2.position.y - ball_1.position.y;
    let rr = ball_1.radius + ball_2.radius;
    proof {
        lemma_mul_abs_le(ddx as int, ddx as int, 0x200_0000, 0x200_0000);
        lemma_mul_abs_le(ddy as int, ddy as int, 0x200_0000, 0x200_0000);
        lemma_mul_abs_le(rr as int, rr as int, 0x2_0000, 0x2_0000);
    }
    ddx * ddx + ddy * ddy < rr * rr
}

/// One component of the contact offset, computed.
fn contact_component(d: i128, r: i128, d2: i128) -> (res: i128)
    requires
        0 < r <= 0x2_0000,
        -0x200_0000 <= d <= 0x200_0000,
        d * d <= d2 < 0x10_0000_0000_0000,
        0 < d2,
    ensures
        res == contact_part(d as int, r as int, d2 as int),
        -r <= res <= r,
{
    proof {
        lemma_contact_part(d as int, r as int, d2 as int);
        assert(0 <= d * d <= 0x10_0000_0000_0000 && 0 < r * r <= 0x4_0000_0000) by (nonlinear_arith)
            requires
                d * d <= d2 < 0x10_0000_0000_0000,
                0 < r <= 0x2_0000,
        ;
    }
    let dd = d * d;
    let rr = r * r;
    assert(0 <= dd * rr <= 0x10_0000_0000_0000 * 0x4_0000_0000) by (nonlinear_arith)
        requires
            0 <= dd <= 0x10_0000_0000_0000,
            0 < rr <= 0x4_0000_0000,
    ;
    let t = -floor_div(-(dd * rr), d2);
    let m = ceil_isqrt(t);
    if d < 0 {
        -m
    } else {
        m
    }
}

/// Resolves one overlapping pair in place: an impulse along the line of centres with
/// restitution `c` (out of `RESTITUTION_SCALE`), masses `radius * radius`, then both balls
/// moved apart along that line by half the penetration each, to the contact offset.
/// Coincident centres leave both balls unchanged.
pub fn ball_to_ball_collision(ball_1: &mut Ball, ball_2: &mut Ball, c: i128)
    requires
        in_range(*old(ball_1)),
        in_range(*old(ball_2)),
        valid_restitution(c as int),
    ensures
        (*final(ball_1), *final(ball_2)) == collide(*old(ball_1), *old(ball_2), c as int),
{
    let b1 = *ball_1;
    let b2 = *ball_2;
    let ddx = b2.position.x - b1.position.x;
    let ddy = b2.position.y - b1.position.y;
    proof {
        lemma_mul_abs_le(ddx as int, ddx as int, 0x200_0000, 0x200_0000);
        lemma_mul_abs_le(ddy as int, ddy as int, 0x200_0000, 0x200_0000);
    }
    let d2 = ddx * ddx + ddy * ddy;
    assert(0 <= d2 < 0x10_0000_0000_0000) by (nonlinear_arith)
        requires
            d2 == ddx * ddx + ddy * ddy,
            -0x200_0000 <= ddx <= 0x200_0000,
            -0x200_0000 <= ddy <= 0x200_0000,
    ;
    if d2 == 0 {
        return;
    }
    proof {
        lemma_mul_abs_le(b1.radius as int, b1.radius as int, 0x1_0000, 0x1_0000);
        lemma_mul_abs_le(b2.radius as int, b2.radius as int, 0x1_0000, 0x1_0000);
    }
    let m1 = b1.radius * b1.radius;
    let m2 = b2.radius * b2.radius;
    proof {
        assert(m1 > 0) by (nonlinear_arith)
            requires
                b1.radius > 0,
                m1 == b1.radius * b1.radius,
        ;
        assert(m2 > 0) by (nonlinear_arith)
            requires
                b2.radius > 0,
                m2 == b2.radius * b2.radius,
        ;
    }
    let rvx = b2.velocity.x - b1.velocity.x;
    let rvy = b2.velocity.y - b1.velocity.y;
    proof {
        lemma_mul_abs_le(rvx as int, ddx as int, 0x200_0000, 0x200_0000);
        lemma_mul_abs_le(rvy as int, ddy as int, 0x200_0000, 0x200_0000);
    }
    let close = rvx * ddx + rvy * ddy;
    proof {
        lemma_mul_abs_le(
            (RESTITUTION_SCALE * (m1 + m2)) as int,
            d2 as int,
            8_589_934_592_000,
            0x10_0000_0000_0000,
        );
    }
    let q = RESTITUTION_SCALE * (m1 + m2) * d2;
    proof {
        assert(q > 0) by (nonlinear_arith)
            requires
                q == 1000 * (m1 + m2) * d2,
                m1 > 0,
                m2 > 0,
                d2 > 0,
        ;
        lemma_mul_abs_le(m2 as int, (RESTITUTION_SCALE + c) as int, 0x1_0000_0000, 2000);
        lemma_mul_abs_le(m1 as int, (RESTITUTION_SCALE + c) as int, 0x1_0000_0000, 2000);
    }
    let k1 = m2 * (RESTITUTION_SCALE + c);
    let k2 = m1 * (RESTITUTION_SCALE + c);
    proof {
        lemma_mul_abs_le(k1 as int, close as int, 8_589_934_592_000, 0x8_0000_0000_0000);
        lemma_mul_abs_le(k2 as int, close as int, 8_589_934_592_000, 0x8_0000_0000_0000);
    }
    let p1 = k1 * close;
    let p2 = -(k2 * close);
    proof {
        let lp: int = 19_342_813_113_834_066_795_298_816_000;
        lemma_mul_abs_le(p1 as int, ddx as int, lp, 0x200_0000);
        lemma_mul_abs_le(p1 as int, ddy as int, lp, 0x200_0000);
        lemma_mul_abs_le(p2 as int, ddx as int, lp, 0x200_0000);
        lemma_mul_abs_le(p2 as int, ddy as int, lp, 0x200_0000);
        assert(p1 == push_first(b1, b2, c as int));
        assert(p2 == push_second(b1, b2, c as int));
    }
    let dv1x = floor_div(p1 * ddx, q);
    let dv1y = floor_div(p1 * ddy, q);
    let dv2x = floor_div(p2 * ddx, q);
    let dv2y = floor_div(p2 * ddy, q);
    assert(ddx * ddx <= d2 && ddy * ddy <= d2) by (nonlinear_arith)
        requires
            d2 == ddx * ddx + ddy * ddy,
    ;
    let rr = b1.radius + b2.radius;
    let cx = contact_component(ddx, rr, d2);
    let cy = contact_component(ddy, rr, d2);
    let ox = b1.position.x + floor_div(ddx - cx, 2);
    let oy = b1.position.y + floor_div(ddy - cy, 2);
    ball_1.velocity = Vec2 { x: b1.velocity.x + dv1x, y: b1.velocity.y + dv1y };
    ball_2.velocity = Vec2 { x: b2.velocity.x + dv2x, y: b2.velocity.y + dv2y };
    ball_1.position = Vec2 { x: ox, y: oy };
    ball_2.position = Vec2 { x: ox + cx, y: oy + cy };
}

} // verus!
