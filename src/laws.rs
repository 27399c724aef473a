use vstd::prelude::*;

use crate::arith::{ceil_div, lemma_ceil_root, lemma_floor_bounds};
use crate::ball::{in_range, mass, valid_restitution, Ball, RESTITUTION_SCALE};
use crate::collision::{
    closing, collide, contact_part, dist_sq, dx, dy, impulse_denom, lemma_collide_fields,
    lemma_contact_part_square, push_first,
    overlaps, push_second, radii,
};
use crate::detect::{is_collision_list, pair_before};

verus! {

pub open spec fn abs(v: int) -> int {
    if v < 0 {
        -v
    } else {
        v
    }
}

/// Two balls of equal mass meeting head-on along the x axis with opposite velocities
/// `(v, 0)` and `(-v, 0)` exchange them in a perfectly elastic collision.
pub proof fn law_equal_mass_elastic_swap(b1: Ball, b2: Ball)
    requires
        in_range(b1),
        in_range(b2),
        b1.radius == b2.radius,
        b1.position.y == b2.position.y,
        b1.position.x < b2.position.x,
        b1.velocity.y == 0,
        b2.velocity.y == 0,
        b2.velocity.x == -b1.velocity.x,
    ensures
        collide(b1, b2, RESTITUTION_SCALE as int).0.velocity.x == -b1.velocity.x,
        collide(b1, b2, RESTITUTION_SCALE as int).0.velocity.y == 0,
        collide(b1, b2, RESTITUTION_SCALE as int).1.velocity.x == b1.velocity.x,
        collide(b1, b2, RESTITUTION_SCALE as int).1.velocity.y == 0,
{
    let c = RESTITUTION_SCALE as int;
    let v = b1.velocity.x as int;
    let ddx = dx(b1, b2);
    let m = mass(b1);
    assert(dist_sq(b1, b2) == ddx * ddx);
    assert(ddx * ddx > 0) by (nonlinear_arith)
        requires
            ddx > 0,
    ;
    lemma_collide_fields(b1, b2, c);
    let q = impulse_denom(b1, b2);
    assert(closing(b1, b2) == -2 * v * ddx) by (nonlinear_arith)
        requires
            closing(b1, b2) == (-v - v) * ddx + 0 * 0,
    ;
    assert(push_first(b1, b2, c) * ddx == q * (-2 * v)) by (nonlinear_arith)
        requires
            push_first(b1, b2, c) == m * 2000 * (-2 * v * ddx),
            q == 1000 * (m + m) * (ddx * ddx),
    ;
    assert(push_second(b1, b2, c) * ddx == q * (2 * v)) by (nonlinear_arith)
        requires
            push_second(b1, b2, c) == -(m * 2000 * (-2 * v * ddx)),
            q == 1000 * (m + m) * (ddx * ddx),
    ;
    vstd::arithmetic::div_mod::lemma_div_multiples_vanish(-2 * v, q);
    vstd::arithmetic::div_mod::lemma_div_multiples_vanish(2 * v, q);
    vstd::arithmetic::div_mod::lemma_div_multiples_vanish(0, q);
    assert(push_first(b1, b2, c) * dy(b1, b2) == q * 0);
    assert(push_second(b1, b2, c) * dy(b1, b2) == q * 0);
}

/// At exact contact the contact offset is the offset itself.
proof fn lemma_contact_of_touching(d: int, r: int)
    requires
        r > 0,
    ensures
        contact_part(d, r, r * r) == d,
{
    let rr = r * r;
    assert(rr > 0) by (nonlinear_arith)
        requires
            r > 0,
            rr == r * r,
    ;
    assert(-(d * d * rr) == rr * (-(d * d))) by (nonlinear_arith);
    vstd::arithmetic::div_mod::lemma_div_multiples_vanish(-(d * d), rr);
    assert(ceil_div(d * d * rr, rr) == d * d);
    let k = if d < 0 {
        -d
    } else {
        d
    };
    assert(k * k == d * d) by (nonlinear_arith)
        requires
            k == d || k == -d,
    ;
    lemma_ceil_root(k * k);
    let m = crate::arith::ceil_root(k * k);
    assert(m == k) by (nonlinear_arith)
        requires
            0 <= m,
            0 <= k,
            k * k <= m * m,
            m == 0 || (m - 1) * (m - 1) < k * k,
    ;
}

/// A pair that touches exactly and does not approach along the line of centres is a fixed
/// point of the resolver.
pub proof fn law_touching_pair_unchanged(b1: Ball, b2: Ball, c: int)
    requires
        in_range(b1),
        in_range(b2),
        valid_restitution(c),
        dist_sq(b1, b2) == radii(b1, b2) * radii(b1, b2),
        closing(b1, b2) == 0,
    ensures
        collide(b1, b2, c) == (b1, b2),
{
    let r = radii(b1, b2);
    assert(r * r > 0) by (nonlinear_arith)
        requires
            r > 0,
    ;
    lemma_collide_fields(b1, b2, c);
    let q = impulse_denom(b1, b2);
    vstd::arithmetic::div_mod::lemma_div_multiples_vanish(0, q);
    assert(push_first(b1, b2, c) == 0);
    assert(push_second(b1, b2, c) == 0);
    let (p1, p2) = (push_first(b1, b2, c), push_second(b1, b2, c));
    let (ex, ey) = (dx(b1, b2), dy(b1, b2));
    assert(p1 * ex == q * 0 && p1 * ey == q * 0 && p2 * ex == q * 0 && p2 * ey == q * 0)
        by (nonlinear_arith)
        requires
            p1 == 0,
            p2 == 0,
    ;
    lemma_contact_of_touching(ex, r);
    lemma_contact_of_touching(ey, r);
    let (a, b) = collide(b1, b2, c);
    assert(a.position == b1.position && a.velocity == b1.velocity);
    assert(b.position == b2.position && b.velocity == b2.velocity);
}

/// With restitution zero the balls leave with the same velocity along the line of centres:
/// their relative velocity along the original offset `d`, `(v2' - v1') . d`, is zero up to
/// the rounding of the velocity changes, less than `|dx| + |dy|` in magnitude.
pub proof fn law_inelastic_common_normal_velocity(b1: Ball, b2: Ball)
    requires
        in_range(b1),
        in_range(b2),
        dist_sq(b1, b2) > 0,
    ensures
        ({
            let (a, b) = collide(b1, b2, 0);
            abs((b.velocity.x - a.velocity.x) * dx(b1, b2) + (b.velocity.y - a.velocity.y) * dy(
                b1,
                b2,
            )) < abs(dx(b1, b2)) + abs(dy(b1, b2))
        }),
{
    lemma_collide_fields(b1, b2, 0);
    let (a, b) = collide(b1, b2, 0);
    let q = impulse_denom(b1, b2);
    let (ex, ey) = (dx(b1, b2), dy(b1, b2));
    let (p1, p2) = (push_first(b1, b2, 0), push_second(b1, b2, 0));
    let (m1, m2) = (mass(b1), mass(b2));
    let cl = closing(b1, b2);
    let (f1x, f1y, f2x, f2y) = ((p1 * ex) / q, (p1 * ey) / q, (p2 * ex) / q, (p2 * ey) / q);
    lemma_floor_bounds(p1 * ex, q);
    lemma_floor_bounds(p1 * ey, q);
    lemma_floor_bounds(p2 * ex, q);
    lemma_floor_bounds(p2 * ey, q);
    let (e1x, e1y, e2x, e2y) = (p1 * ex - q * f1x, p1 * ey - q * f1y, p2 * ex - q * f2x, p2 * ey
        - q * f2y);
    let rel = (b.velocity.x - a.velocity.x) * ex + (b.velocity.y - a.velocity.y) * ey;
    assert(rel == cl + (f2x - f1x) * ex + (f2y - f1y) * ey) by (nonlinear_arith)
        requires
            rel == (b.velocity.x - a.velocity.x) * ex + (b.velocity.y - a.velocity.y) * ey,
            b.velocity.x - a.velocity.x == (b2.velocity.x - b1.velocity.x) + (f2x - f1x),
            b.velocity.y - a.velocity.y == (b2.velocity.y - b1.velocity.y) + (f2y - f1y),
            cl == (b2.velocity.x - b1.velocity.x) * ex + (b2.velocity.y - b1.velocity.y) * ey,
    ;
    let (g1x, g1y, g2x, g2y) = (q * f1x, q * f1y, q * f2x, q * f2y);
    let (ax, ay) = ((f2x - f1x) * ex, (f2y - f1y) * ey);
    assert(q * (cl + ax + ay) == q * cl + q * ax + q * ay) by (nonlinear_arith);
    assert(q * ((f2x - f1x) * ex) == (q * f2x - q * f1x) * ex) by (nonlinear_arith);
    assert(q * ((f2y - f1y) * ey) == (q * f2y - q * f1y) * ey) by (nonlinear_arith);
    assert(q * rel == q * cl + (g2x - g1x) * ex + (g2y - g1y) * ey);
    let (t1, t2) = ((e1x - e2x) * ex, (e1y - e2y) * ey);
    assert((g2x - g1x) * ex == (p2 - p1) * (ex * ex) + t1) by (nonlinear_arith)
        requires
            g2x - g1x == (p2 * ex - e2x) - (p1 * ex - e1x),
            t1 == (e1x - e2x) * ex,
    ;
    assert((g2y - g1y) * ey == (p2 - p1) * (ey * ey) + t2) by (nonlinear_arith)
        requires
            g2y - g1y == (p2 * ey - e2y) - (p1 * ey - e1y),
            t2 == (e1y - e2y) * ey,
    ;
    assert(p2 - p1 == -(1000 * (m1 + m2)) * cl) by (nonlinear_arith)
        requires
            p1 == m2 * 1000 * cl,
            p2 == -(m1 * 1000 * cl),
    ;
    let d2 = ex * ex + ey * ey;
    assert(q * cl + (p2 - p1) * (ex * ex) + (p2 - p1) * (ey * ey) == 0) by (nonlinear_arith)
        requires
            p2 - p1 == -(1000 * (m1 + m2)) * cl,
            q == 1000 * (m1 + m2) * d2,
            d2 == ex * ex + ey * ey,
    ;
    assert(q * rel == t1 + t2);
    assert(abs((e1x - e2x) * ex) <= q * abs(ex) && (ex != 0 ==> abs((e1x - e2x) * ex) < q * abs(
        ex,
    ))) by (nonlinear_arith)
        requires
            0 <= e1x < q,
            0 <= e2x < q,
    ;
    assert(abs((e1y - e2y) * ey) <= q * abs(ey) && (ey != 0 ==> abs((e1y - e2y) * ey) < q * abs(
        ey,
    ))) by (nonlinear_arith)
        requires
            0 <= e1y < q,
            0 <= e2y < q,
    ;
    assert(ex != 0 || ey != 0) by (nonlinear_arith)
        requires
            ex * ex + ey * ey > 0,
    ;
    assert(abs(t1 + t2) <= abs(t1) + abs(t2));
    assert(q * (abs(ex) + abs(ey)) == q * abs(ex) + q * abs(ey)) by (nonlinear_arith);
    assert(abs(q * rel) < q * (abs(ex) + abs(ey)));
    assert(abs(rel) < abs(ex) + abs(ey)) by (nonlinear_arith)
        requires
            q > 0,
            abs(q * rel) < q * (abs(ex) + abs(ey)),
    ;
}

/// Rounding of a velocity change `(p * dx / q, p * dy / q)` leaves its cross product with
/// `d` below `|dx| + |dy|` in magnitude: the change is along the line of centres.
proof fn lemma_change_along_offset(p: int, q: int, ex: int, ey: int)
    requires
        q > 0,
        ex != 0 || ey != 0,
    ensures
        abs(((p * ex) / q) * ey - ((p * ey) / q) * ex) < abs(ex) + abs(ey),
{
    let (fx, fy) = ((p * ex) / q, (p * ey) / q);
    lemma_floor_bounds(p * ex, q);
    lemma_floor_bounds(p * ey, q);
    let (ux, uy) = (p * ex - q * fx, p * ey - q * fy);
    let cr = fx * ey - fy * ex;
    assert(q * cr == uy * ex - ux * ey) by (nonlinear_arith)
        requires
            cr == fx * ey - fy * ex,
            ux == p * ex - q * fx,
            uy == p * ey - q * fy,
    ;
    assert(abs(uy * ex) <= q * abs(ex) && (ex != 0 ==> abs(uy * ex) < q * abs(ex)))
        by (nonlinear_arith)
        requires
            0 <= uy < q,
    ;
    assert(abs(ux * ey) <= q * abs(ey) && (ey != 0 ==> abs(ux * ey) < q * abs(ey)))
        by (nonlinear_arith)
        requires
            0 <= ux < q,
    ;
    assert(q * (abs(ex) + abs(ey)) == q * abs(ex) + q * abs(ey)) by (nonlinear_arith);
    assert(abs(q * cr) < q * (abs(ex) + abs(ey)));
    assert(abs(cr) < abs(ex) + abs(ey)) by (nonlinear_arith)
        requires
            q > 0,
            abs(q * cr) < q * (abs(ex) + abs(ey)),
    ;
}

/// For any restitution the velocity component perpendicular to the line of centres is kept:
/// the cross product of each ball's velocity with the offset `d` changes by less than
/// `|dx| + |dy|`, which is the rounding of the velocity changes.
pub proof fn law_perpendicular_velocity_kept(b1: Ball, b2: Ball, c: int)
    requires
        in_range(b1),
        in_range(b2),
        valid_restitution(c),
        dist_sq(b1, b2) > 0,
    ensures
        ({
            let (a, b) = collide(b1, b2, c);
            let (ex, ey) = (dx(b1, b2), dy(b1, b2));
            &&& abs((a.velocity.x * ey - a.velocity.y * ex) - (b1.velocity.x * ey - b1.velocity.y
                * ex)) < abs(ex) + abs(ey)
            &&& abs((b.velocity.x * ey - b.velocity.y * ex) - (b2.velocity.x * ey - b2.velocity.y
                * ex)) < abs(ex) + abs(ey)
        }),
{
    lemma_collide_fields(b1, b2, c);
    let (a, b) = collide(b1, b2, c);
    let q = impulse_denom(b1, b2);
    let (ex, ey) = (dx(b1, b2), dy(b1, b2));
    assert(ex != 0 || ey != 0) by (nonlinear_arith)
        requires
            ex * ex + ey * ey > 0,
    ;
    let (p1, p2) = (push_first(b1, b2, c), push_second(b1, b2, c));
    lemma_change_along_offset(p1, q, ex, ey);
    lemma_change_along_offset(p2, q, ex, ey);
    let (f1x, f1y, f2x, f2y) = ((p1 * ex) / q, (p1 * ey) / q, (p2 * ex) / q, (p2 * ey) / q);
    let (u1x, u1y, u2x, u2y) = (
        b1.velocity.x as int,
        b1.velocity.y as int,
        b2.velocity.x as int,
        b2.velocity.y as int,
    );
    assert((u1x + f1x) * ey - (u1y + f1y) * ex - (u1x * ey - u1y * ex) == f1x * ey - f1y * ex)
        by (nonlinear_arith);
    assert((u2x + f2x) * ey - (u2y + f2y) * ex - (u2x * ey - u2y * ex) == f2x * ey - f2y * ex)
        by (nonlinear_arith);
}

/// Separation leaves the pair at contact: the new squared centre distance is at least
/// `(r1 + r2)^2`, so the balls no longer overlap, and below `(r1 + r2 + 2)^2`, the rounding of
/// the contact offset. Each ball moves half of the change of the offset, so the midpoint of
/// the centres is kept (to half a unit on each axis).
pub proof fn law_separation_reaches_contact(b1: Ball, b2: Ball, c: int)
    requires
        in_range(b1),
        in_range(b2),
        valid_restitution(c),
        dist_sq(b1, b2) > 0,
    ensures
        ({
            let (a, b) = collide(b1, b2, c);
            let r = radii(b1, b2);
            let (nx, ny) = (b.position.x - a.position.x, b.position.y - a.position.y);
            &&& r * r <= nx * nx + ny * ny < (r + 2) * (r + 2)
            &&& !overlaps(a, b)
            &&& b1.position.x + b2.position.x - 1 <= a.position.x + b.position.x
                <= b1.position.x + b2.position.x
            &&& b1.position.y + b2.position.y - 1 <= a.position.y + b.position.y
                <= b1.position.y + b2.position.y
        }),
{
    lemma_collide_fields(b1, b2, c);
    let (a, b) = collide(b1, b2, c);
    let r = radii(b1, b2);
    let d2 = dist_sq(b1, b2);
    let (ex, ey) = (dx(b1, b2), dy(b1, b2));
    assert(ex * ex <= d2 && ey * ey <= d2) by (nonlinear_arith)
        requires
            d2 == ex * ex + ey * ey,
    ;
    lemma_contact_part_square(ex, r, d2);
    lemma_contact_part_square(ey, r, d2);
    let (cx, cy) = (contact_part(ex, r, d2), contact_part(ey, r, d2));
    let s = cx * cx + cy * cy;
    assert(d2 * (r * r) <= d2 * s && d2 * s < d2 * (r * r + 4 * r + 2)) by (nonlinear_arith)
        requires
            ex * ex * (r * r) <= d2 * (cx * cx),
            ey * ey * (r * r) <= d2 * (cy * cy),
            d2 * (cx * cx) < ex * ex * (r * r) + d2 * (2 * r + 1),
            d2 * (cy * cy) < ey * ey * (r * r) + d2 * (2 * r + 1),
            d2 == ex * ex + ey * ey,
            s == cx * cx + cy * cy,
    ;
    assert(r * r <= s < (r + 2) * (r + 2)) by (nonlinear_arith)
        requires
            d2 > 0,
            d2 * (r * r) <= d2 * s,
            d2 * s < d2 * (r * r + 4 * r + 2),
    ;
    lemma_floor_bounds(ex - cx, 2);
    lemma_floor_bounds(ey - cy, 2);
    assert(dist_sq(a, b) == s);
}

/// When no two balls are closer than the sum of their radii, the detector reports no pair.
pub proof fn law_separated_balls_no_pairs(balls: Seq<Ball>, r: Seq<(usize, usize)>)
    requires
        forall|i: int, j: int|
            0 <= i < j < balls.len() ==> dist_sq(balls[i], balls[j]) >= radii(balls[i], balls[j])
                * radii(balls[i], balls[j]),
        is_collision_list(balls, r),
    ensures
        r.len() == 0,
{
    if r.len() > 0 {
        let (i, j) = r[0];
        assert(overlaps(balls[i as int], balls[j as int]));
    }
}

/// Two balls with coincident centres are reported as the single pair `(0, 1)`.
pub proof fn law_coincident_balls_one_pair(balls: Seq<Ball>, r: Seq<(usize, usize)>)
    requires
        balls.len() == 2,
        balls[0].radius > 0,
        balls[1].radius > 0,
        balls[0].position == balls[1].position,
        is_collision_list(balls, r),
    ensures
        r == seq![(0usize, 1usize)],
{
    let rr = radii(balls[0], balls[1]);
    assert(rr * rr > 0) by (nonlinear_arith)
        requires
            rr > 0,
    ;
    assert(overlaps(balls[0], balls[1]));
    assert(r.contains((0usize, 1usize)));
    assert forall|k: int| 0 <= k < r.len() implies r[k] == (0usize, 1usize) by {
        let (i, j) = r[k];
        assert(i < j < 2);
    }
    if r.len() > 1 {
        assert(pair_before(r[0], r[1]));
    }
    assert(r =~= seq![(0usize, 1usize)]);
}

} // verus!
