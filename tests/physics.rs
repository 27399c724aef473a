use ball_pit::arith::{floor_div, isqrt};
use ball_pit::ball::{Ball, Vec2, RADIUS_LIMIT};
use ball_pit::collision::{ball_to_ball_collision, check_collides};
use ball_pit::detect::colliding_pairs;
use ball_pit::motion::{integrate, resolve_walls};
use ball_pit::sim::{
    all_balls_in_range, resolve_pair, resolve_pass, spawn_ball, tick, Config, ConfigError,
    StepError,
};

fn ball(r: i128, px: i128, py: i128, vx: i128, vy: i128) -> Ball {
    Ball { radius: r, position: Vec2 { x: px, y: py }, velocity: Vec2 { x: vx, y: vy } }
}

fn dist_sq(a: &Ball, b: &Ball) -> i128 {
    let dx = b.position.x - a.position.x;
    let dy = b.position.y - a.position.y;
    dx * dx + dy * dy
}

#[test]
fn wall_clamps_left_edge_and_reflects() {
    let mut balls = vec![ball(3000, -5000, 50_000, 2000, 0)];
    resolve_walls(&mut balls, 100_000, 100_000, 800);
    assert_eq!(balls[0].position.x, 3000);
    assert_eq!(balls[0].velocity.x, -1600);
    assert_eq!(balls[0].position.y, 50_000);
    assert_eq!(balls[0].velocity.y, 0);
}

#[test]
fn wall_clamps_upper_edges_in_a_corner() {
    let mut balls = vec![ball(10, 995, 1_000, 7, -4)];
    resolve_walls(&mut balls, 1000, 990, 900);
    assert_eq!(balls[0].position, Vec2 { x: 990, y: 980 });
    assert_eq!(balls[0].velocity, Vec2 { x: -7, y: 3 });
}

#[test]
fn wall_leaves_inner_ball_alone() {
    let mut balls = vec![ball(10, 500, 500, 7, -4)];
    resolve_walls(&mut balls, 1000, 1000, 900);
    assert_eq!(balls[0], ball(10, 500, 500, 7, -4));
}

#[test]
fn integrate_adds_gravity_then_velocity() {
    let mut balls = vec![ball(5, 10, 20, 3, -1), ball(7, 0, 0, 0, 0)];
    integrate(&mut balls, 2);
    assert_eq!(balls[0], ball(5, 13, 21, 3, 1));
    assert_eq!(balls[1], ball(7, 0, 2, 0, 2));
}

#[test]
fn elastic_equal_mass_head_on_swaps() {
    let mut a = ball(10, 0, 0, 5, 0);
    let mut b = ball(10, 15, 0, -5, 0);
    ball_to_ball_collision(&mut a, &mut b, 1000);
    assert_eq!(a.velocity, Vec2 { x: -5, y: 0 });
    assert_eq!(b.velocity, Vec2 { x: 5, y: 0 });
}

#[test]
fn inelastic_collision_moves_together_along_normal() {
    let mut a = ball(10, 0, 0, 4, 3);
    let mut b = ball(10, 15, 0, 0, -2);
    ball_to_ball_collision(&mut a, &mut b, 0);
    assert_eq!(a.velocity, Vec2 { x: 2, y: 3 });
    assert_eq!(b.velocity, Vec2 { x: 2, y: -2 });
}

#[test]
fn separation_leaves_pair_touching() {
    let mut a = ball(10_000, 0, 0, 0, 0);
    let mut b = ball(10_000, 15_000, 0, 0, 0);
    ball_to_ball_collision(&mut a, &mut b, 800);
    assert_eq!(a.position, Vec2 { x: -2500, y: 0 });
    assert_eq!(b.position, Vec2 { x: 17_500, y: 0 });
    assert_eq!(dist_sq(&a, &b), 20_000 * 20_000);
}

#[test]
fn separation_on_a_diagonal_reaches_contact() {
    let mut a = ball(2500, 0, 0, 0, 0);
    let mut b = ball(2500, 3000, 4000, 0, 0);
    ball_to_ball_collision(&mut a, &mut b, 500);
    assert_eq!(a.position, Vec2 { x: 0, y: 0 });
    assert_eq!(b.position, Vec2 { x: 3000, y: 4000 });
    let mut c = ball(3000, 0, 0, 0, 0);
    let mut d = ball(3000, 3000, 4000, 0, 0);
    ball_to_ball_collision(&mut c, &mut d, 500);
    assert_eq!(c.position, Vec2 { x: -300, y: -400 });
    assert_eq!(d.position, Vec2 { x: 3300, y: 4400 });
    assert_eq!(dist_sq(&c, &d), 6000 * 6000);
}

#[test]
fn separation_with_inexact_distance_reaches_contact() {
    let mut a = ball(1000, 0, 0, 0, 0);
    let mut b = ball(1000, 1, 1, 0, 0);
    ball_to_ball_collision(&mut a, &mut b, 800);
    // contact offset: ceil(sqrt(1 * 2000^2 / 2)) = 1415 on each axis
    assert_eq!(a.position, Vec2 { x: -707, y: -707 });
    assert_eq!(b.position, Vec2 { x: 708, y: 708 });
    let d2 = dist_sq(&a, &b);
    assert!(2000 * 2000 <= d2 && d2 < 2002 * 2002);
    assert!(!check_collides(&a, &b));
    assert_eq!(a.position.x + b.position.x, 1);
}

#[test]
fn separation_along_negative_offset_reaches_contact() {
    let mut a = ball(3, 0, 0, 0, 0);
    let mut b = ball(3, -3, -4, 0, 0);
    ball_to_ball_collision(&mut a, &mut b, 800);
    // components ceil(sqrt(ceil(9 * 36 / 25))) = 4 and ceil(sqrt(ceil(16 * 36 / 25))) = 5
    assert_eq!(a.position, Vec2 { x: 0, y: 0 });
    assert_eq!(b.position, Vec2 { x: -4, y: -5 });
    let d2 = dist_sq(&a, &b);
    assert!(6 * 6 <= d2 && d2 < 8 * 8);
    assert!(!check_collides(&a, &b));
}

#[test]
fn touching_pair_at_rest_is_fixed_point() {
    let mut a = ball(10, 0, 0, 0, 0);
    let mut b = ball(10, 20, 0, 0, 0);
    ball_to_ball_collision(&mut a, &mut b, 800);
    assert_eq!(a, ball(10, 0, 0, 0, 0));
    assert_eq!(b, ball(10, 20, 0, 0, 0));
    let mut c = ball(6, 0, 0, 3, 9);
    let mut d = ball(9, 9, 12, 3, 9);
    ball_to_ball_collision(&mut c, &mut d, 300);
    assert_eq!(c, ball(6, 0, 0, 3, 9));
    assert_eq!(d, ball(9, 9, 12, 3, 9));
}

#[test]
fn coincident_centres_are_left_unchanged() {
    let mut a = ball(10, 5, 5, 1, 2);
    let mut b = ball(4, 5, 5, -3, 0);
    ball_to_ball_collision(&mut a, &mut b, 800);
    assert_eq!(a, ball(10, 5, 5, 1, 2));
    assert_eq!(b, ball(4, 5, 5, -3, 0));
}

#[test]
fn unequal_masses_conserve_momentum() {
    let mut a = ball(20, 0, 0, 4, 0);
    let mut b = ball(10, 25, 0, -6, 0);
    ball_to_ball_collision(&mut a, &mut b, 1000);
    // m1 = 400, m2 = 100: v1' = (4 * 300 - 6 * 200) / 500, v2' = (-6 * -300 + 400 * 4 * 2) / 500
    assert_eq!(a.velocity, Vec2 { x: 0, y: 0 });
    assert_eq!(b.velocity, Vec2 { x: 10, y: 0 });
    assert_eq!(400 * a.velocity.x + 100 * b.velocity.x, 400 * 4 + 100 * -6);
}

#[test]
fn detector_reports_nothing_for_separated_balls() {
    let balls = vec![
        ball(10, 0, 0, 0, 0),
        ball(10, 21, 0, 0, 0),
        ball(5, 0, 16, 0, 0),
        ball(3, 100, 100, 0, 0),
    ];
    assert!(colliding_pairs(&balls).is_empty());
    assert!(!check_collides(&balls[0], &balls[1]));
}

#[test]
fn detector_reports_coincident_pair() {
    let balls = vec![ball(10, 7, 7, 0, 0), ball(3, 7, 7, 1, 1)];
    assert_eq!(colliding_pairs(&balls), vec![(0, 1)]);
}

#[test]
fn detector_lists_pairs_in_order() {
    let balls = vec![
        ball(10, 0, 0, 0, 0),
        ball(10, 100, 0, 0, 0),
        ball(10, 15, 0, 0, 0),
        ball(10, 110, 5, 0, 0),
        ball(10, 5, 5, 0, 0),
    ];
    assert_eq!(colliding_pairs(&balls), vec![(0, 2), (0, 4), (1, 3), (2, 4)]);
}

#[test]
fn end_to_end_pass_on_two_balls() {
    let mut balls = vec![ball(10_000, 0, 0, 5000, 0), ball(10_000, 15_000, 0, 0, 0)];
    assert_eq!(colliding_pairs(&balls), vec![(0, 1)]);
    assert_eq!(resolve_pass(&mut balls, 800), Ok(()));
    assert_eq!(dist_sq(&balls[0], &balls[1]), 20_000 * 20_000);
    // m1 = m2 = 100 (in units squared): v1' = v1 (1 - c) / 2, v2' = v1 (1 + c) / 2
    assert_eq!(balls[0].velocity, Vec2 { x: 500, y: 0 });
    assert_eq!(balls[1].velocity, Vec2 { x: 4500, y: 0 });
    assert!(colliding_pairs(&balls).is_empty());
}

#[test]
fn pass_resolves_pairs_sequentially() {
    // The middle ball is pushed by the first pair before the second pair is tested.
    let mut balls = vec![
        ball(1000, 0, 0, 0, 0),
        ball(1000, 1800, 0, 0, 0),
        ball(1000, 3900, 0, 0, 0),
    ];
    assert_eq!(colliding_pairs(&balls), vec![(0, 1)]);
    assert_eq!(resolve_pass(&mut balls, 800), Ok(()));
    assert_eq!(balls[0].position.x, -100);
    assert_eq!(balls[1].position.x, 1900);
    assert_eq!(balls[2].position.x, 3900);
    assert!(colliding_pairs(&balls).is_empty());
}

#[test]
fn resolve_pair_skips_same_index() {
    let mut balls = vec![ball(10, 0, 0, 1, 1)];
    resolve_pair(&mut balls, 0, 0, 800);
    assert_eq!(balls[0], ball(10, 0, 0, 1, 1));
}

#[test]
fn tick_keeps_radii_over_many_ticks() {
    let cfg = Config::new(8, 900, 800, 10).unwrap();
    let mut balls = Vec::new();
    for i in 0..6i128 {
        spawn_ball(Vec2 { x: 2000 + 1500 * i, y: 3000 + 700 * i }, 700 + 100 * i, &mut balls).unwrap();
    }
    for _ in 0..200 {
        assert_eq!(tick(&mut balls, &cfg, 12_000, 9000), Ok(()));
    }
    for (i, b) in balls.iter().enumerate() {
        assert_eq!(b.radius, 700 + 100 * i as i128);
        assert!(b.radius > 0);
    }
    assert!(all_balls_in_range(&balls));
}

#[test]
fn tick_moves_falls_and_bounces() {
    let cfg = Config::new(2, 500, 1000, 1).unwrap();
    let mut balls = vec![ball(10, 50, 985, 0, 6)];
    assert_eq!(tick(&mut balls, &cfg, 100, 1000), Ok(()));
    // v.y = 8, y = 993 > 990: clamped to 990, v.y = -4
    assert_eq!(balls[0], ball(10, 50, 990, 0, -4));
}

#[test]
fn tick_refuses_bad_domain_and_out_of_range_balls() {
    let cfg = Config::new(0, 800, 800, 1).unwrap();
    let mut balls = vec![ball(10, 50, 50, 0, 0)];
    assert_eq!(tick(&mut balls, &cfg, 0, 100), Err(StepError::InvalidDomain));
    assert_eq!(balls[0], ball(10, 50, 50, 0, 0));
    let mut far = vec![ball(10, 50, 50, 1 << 40, 0)];
    assert_eq!(tick(&mut far, &cfg, 100, 100), Err(StepError::OutOfRange));
}

#[test]
fn config_errors_name_the_bad_value() {
    assert_eq!(Config::new(1 << 30, 800, 800, 1), Err(ConfigError::GravityOutOfRange));
    assert_eq!(Config::new(0, 1001, 800, 1), Err(ConfigError::WallRestitutionOutOfRange));
    assert_eq!(Config::new(0, 800, -1, 1), Err(ConfigError::BallRestitutionOutOfRange));
    assert_eq!(Config::new(0, 800, 800, 0), Err(ConfigError::NoSubsteps));
    let cfg = Config::new(-3, 0, 1000, 4).unwrap();
    assert_eq!(cfg.gravity, -3);
    assert_eq!(cfg.substeps, 4);
}

#[test]
fn spawn_refuses_invalid_radius() {
    let mut balls = Vec::new();
    assert_eq!(spawn_ball(Vec2 { x: 1, y: 2 }, 0, &mut balls), Err(StepError::InvalidRadius));
    assert_eq!(
        spawn_ball(Vec2 { x: 1, y: 2 }, RADIUS_LIMIT + 1, &mut balls),
        Err(StepError::InvalidRadius)
    );
    assert!(balls.is_empty());
    assert_eq!(spawn_ball(Vec2 { x: 1, y: 2 }, 40, &mut balls), Ok(()));
    assert_eq!(balls, vec![ball(40, 1, 2, 0, 0)]);
}

#[test]
fn integer_helpers() {
    assert_eq!(isqrt(0), 0);
    assert_eq!(isqrt(224), 14);
    assert_eq!(isqrt(225), 15);
    assert_eq!(isqrt(1 << 50), 1 << 25);
    assert_eq!(floor_div(-7, 2), -4);
    assert_eq!(floor_div(7, 2), 3);
}
