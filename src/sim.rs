use vstd::prelude::*;

use crate::ball::{in_range, valid_restitution, Ball, Vec2, COORD_LIMIT, RADIUS_LIMIT, RESTITUTION_SCALE};
use crate::collision::{ball_to_ball_collision, check_collides, collide, overlaps};
use crate::motion::{
    bounced, integrate, integrated, resolve_walls, valid_domain, valid_gravity,
};

verus! {

/// Why a configuration was refused.
#[derive(Clone, Copy, Debug, PartialEq, Eq, Structural)]
pub enum ConfigError {
    GravityOutOfRange,
    WallRestitutionOutOfRange,
    BallRestitutionOutOfRange,
    NoSubsteps,
}

/// Why a spawn or a tick failed.
#[derive(Clone, Copy, Debug, PartialEq, Eq, Structural)]
pub enum StepError {
    /// A radius outside `(0, RADIUS_LIMIT]`.
    InvalidRadius,
    /// A domain side outside `(0, COORD_LIMIT]`.
    InvalidDomain,
    /// A ball left the working range `[-COORD_LIMIT, COORD_LIMIT]`.
    OutOfRange,
}

/// Tunable constants of the simulation. Restitutions are out of `RESTITUTION_SCALE`.
#[derive(Clone, Copy, Debug, PartialEq, Eq, Structural)]
pub struct Config {
    pub gravity: i128,
    pub wall_restitution: i128,
    pub ball_restitution: i128,
    pub substeps: u32,
}

impl Config {
    pub open spec fn valid(&self) -> bool {
        &&& valid_gravity(self.gravity as int)
        &&& valid_restitution(self.wall_restitution as int)
        &&& valid_restitution(self.ball_restitution as int)
        &&& self.substeps >= 1
    }

    /// A configuration, refused when a value is out of its range.
    pub fn new(gravity: i128, wall_restitution: i128, ball_restitution: i128, substeps: u32) -> (r:
        Result<Config, ConfigError>)
        ensures
            !valid_gravity(gravity as int) ==> r == Err::<Config, ConfigError>(
                ConfigError::GravityOutOfRange,
            ),
            valid_gravity(gravity as int) && !valid_restitution(wall_restitution as int) ==> r
                == Err::<Config, ConfigError>(ConfigError::WallRestitutionOutOfRange),
            valid_gravity(gravity as int) && valid_restitution(wall_restitution as int)
                && !valid_restitution(ball_restitution as int) ==> r == Err::<Config, ConfigError>(
                ConfigError::BallRestitutionOutOfRange,
            ),
            valid_gravity(gravity as int) && valid_restitution(wall_restitution as int)
                && valid_restitution(ball_restitution as int) && substeps == 0 ==> r == Err::<
                Config,
                ConfigError,
            >(ConfigError::NoSubsteps),
            r is Ok ==> r->Ok_0 == (Config { gravity, wall_restitution, ball_restitution, substeps }),
            r is Ok <==> (Config { gravity, wall_restitution, ball_restitution, substeps }).valid(),
    {
        if gravity < -COORD_LIMIT || gravity > COORD_LIMIT {
            Err(ConfigError::GravityOutOfRange)
        } else if wall_restitution < 0 || wall_restitution > RESTITUTION_SCALE {
            Err(ConfigError::WallRestitutionOutOfRange)
        } else if ball_restitution < 0 || ball_restitution > RESTITUTION_SCALE {
            Err(ConfigError::BallRestitutionOutOfRange)
        } else if substeps == 0 {
            Err(ConfigError::NoSubsteps)
        } else {
            Ok(Config { gravity, wall_restitution, ball_restitution, substeps })
        }
    }
}

/// Appends a ball at rest at `position`; a radius outside `(0, RADIUS_LIMIT]` is refused.
pub fn spawn_ball(position: Vec2, radius: i128, balls: &mut Vec<Ball>) -> (r: Result<(), StepError>)
    ensures
        r is Ok <==> 0 < radius <= RADIUS_LIMIT,
        r is Err ==> r == Err::<(), StepError>(StepError::InvalidRadius) && final(balls)@ == old(
            balls,
        )@,
        r is Ok ==> final(balls)@ == old(balls)@.push(
            Ball { radius, position, velocity: Vec2 { x: 0, y: 0 } },
        ),
{
    if radius <= 0 || radius > RADIUS_LIMIT {
        return Err(StepError::InvalidRadius);
    }
    balls.push(Ball::at_rest(position, radius));
    Ok(())
}

/// One pair step of a pass over `s`: a pair with a ball out of range stops the pass; an
/// overlapping pair is resolved in place; any other pair is left as it is.
pub open spec fn pair_step(s: Seq<Ball>, c: int, i: int, j: int) -> Option<Seq<Ball>> {
    if !(in_range(s[i]) && in_range(s[j])) {
        None
    } else if overlaps(s[i], s[j]) {
        let (a, b) = collide(s[i], s[j], c);
        Some(s.update(i, a).update(j, b))
    } else {
        Some(s)
    }
}

/// The rest of a detection and resolution pass over `n` balls from the pair `(i, j)` on:
/// pairs in ascending `i`, then ascending `j > i`, each seeing the balls as the earlier pairs
/// left them. `None` when a ball left the working range.
pub open spec fn sweep(s: Seq<Ball>, n: int, c: int, i: int, j: int) -> Option<Seq<Ball>>
    decreases n - i, n - j,
{
    if i >= n {
        Some(s)
    } else if j >= n {
        sweep(s, n, c, i + 1, i + 2)
    } else {
        match pair_step(s, c, i, j) {
            Some(t) => sweep(t, n, c, i, j + 1),
            None => None,
        }
    }
}

/// A whole detection and resolution pass.
pub open spec fn pass(s: Seq<Ball>, c: int) -> Option<Seq<Ball>> {
    sweep(s, s.len() as int, c, 0, 1)
}

/// `k` passes in a row.
pub open spec fn settle(s: Seq<Ball>, c: int, k: nat) -> Option<Seq<Ball>>
    decreases k,
{
    if k == 0 {
        Some(s)
    } else {
        match pass(s, c) {
            Some(t) => settle(t, c, (k - 1) as nat),
            None => None,
        }
    }
}

/// Every ball after one tick of motion and the wall check.
pub open spec fn advanced(s: Seq<Ball>, cfg: Config, width: int, height: int) -> Seq<Ball> {
    Seq::new(
        s.len(),
        |k: int|
            bounced(
                integrated(s[k], cfg.gravity as int),
                width,
                height,
                cfg.wall_restitution as int,
            ),
    )
}

pub open spec fn all_in_range(s: Seq<Ball>) -> bool {
    forall|k: int| 0 <= k < s.len() ==> in_range(#[trigger] s[k])
}

pub open spec fn same_radii(s: Seq<Ball>, t: Seq<Ball>) -> bool {
    &&& s.len() == t.len()
    &&& forall|k: int| 0 <= k < s.len() ==> (#[trigger] s[k]).radius == t[k].radius
}

/// The outcome of one tick, as `tick` computes it; `None` when it fails.
pub open spec fn tick_outcome(s: Seq<Ball>, cfg: Config, width: int, height: int) -> Option<
    Seq<Ball>,
> {
    if !valid_domain(width, height) || !all_in_range(s) {
        None
    } else {
        settle(advanced(s, cfg, width, height), cfg.ball_restitution as int, cfg.substeps as nat)
    }
}

/// `k` ticks in a row on a fixed domain; `None` when one fails.
pub open spec fn run(s: Seq<Ball>, cfg: Config, width: int, height: int, k: nat) -> Option<
    Seq<Ball>,
>
    decreases k,
{
    if k == 0 {
        Some(s)
    } else {
        match tick_outcome(s, cfg, width, height) {
            Some(t) => run(t, cfg, width, height, (k - 1) as nat),
            None => None,
        }
    }
}

/// The rest of a pass changes no radius.
pub proof fn lemma_sweep_keeps_radii(s: Seq<Ball>, n: int, c: int, i: int, j: int)
    requires
        n == s.len(),
        0 <= i < j,
    ensures
        sweep(s, n, c, i, j) is Some ==> same_radii(s, sweep(s, n, c, i, j)->Some_0),
    decreases n - i, n - j,
{
    if i >= n {
    } else if j >= n {
        lemma_sweep_keeps_radii(s, n, c, i + 1, i + 2);
    } else {
        match pair_step(s, c, i, j) {
            Some(t) => {
                assert(same_radii(s, t));
                lemma_sweep_keeps_radii(t, n, c, i, j + 1);
            },
            None => {},
        }
    }
}

/// Any number of passes changes no radius.
pub proof fn lemma_settle_keeps_radii(s: Seq<Ball>, c: int, k: nat)
    ensures
        settle(s, c, k) is Some ==> same_radii(s, settle(s, c, k)->Some_0),
    decreases k,
{
    if k > 0 {
        lemma_sweep_keeps_radii(s, s.len() as int, c, 0, 1);
        match pass(s, c) {
            Some(t) => {
                lemma_settle_keeps_radii(t, c, (k - 1) as nat);
            },
            None => {},
        }
    }
}

/// Radii are never changed by the kernel: after any number of ticks every ball has the
/// radius it was created with, so a positive radius stays positive.
pub proof fn law_radii_kept_over_ticks(s: Seq<Ball>, cfg: Config, width: int, height: int, k: nat)
    ensures
        run(s, cfg, width, height, k) is Some ==> {
            let t = run(s, cfg, width, height, k)->Some_0;
            &&& same_radii(s, t)
            &&& forall|m: int| 0 <= m < s.len() && s[m].radius > 0 ==> #[trigger] t[m].radius > 0
        },
    decreases k,
{
    if k > 0 {
        if let Some(a) = tick_outcome(s, cfg, width, height) {
            let adv = advanced(s, cfg, width, height);
            lemma_settle_keeps_radii(adv, cfg.ball_restitution as int, cfg.substeps as nat);
            assert(same_radii(s, adv));
            assert(same_radii(s, a));
            law_radii_kept_over_ticks(a, cfg, width, height, (k - 1) as nat);
        }
    }
}

/// Resolves the pair `(i, j)` in place. The same index twice is skipped.
pub fn resolve_pair(balls: &mut Vec<Ball>, i: usize, j: usize, c: i128)
    requires
        i < old(balls)@.len(),
        j < old(balls)@.len(),
        in_range(old(balls)@[i as int]),
        in_range(old(balls)@[j as int]),
        valid_restitution(c as int),
    ensures
        i == j ==> final(balls)@ == old(balls)@,
        i != j ==> final(balls)@ == old(balls)@.update(
            i as int,
            collide(old(balls)@[i as int], old(balls)@[j as int], c as int).0,
        ).update(j as int, collide(old(balls)@[i as int], old(balls)@[j as int], c as int).1),
{
    if i == j {
        return;
    }
    let mut b1 = balls[i];
    let mut b2 = balls[j];
    ball_to_ball_collision(&mut b1, &mut b2, c);
    balls.set(i, b1);
    balls.set(j, b2);
}

/// One detection and resolution pass: every pair `(i, j)`, `i < j`, in ascending order, is
/// tested for overlap and, if it overlaps, resolved at once, so that later pairs see the
/// result. Fails when a ball it reaches is out of the working range.
pub fn resolve_pass(balls: &mut Vec<Ball>, c: i128) -> (r: Result<(), StepError>)
    requires
        valid_restitution(c as int),
    ensures
        r is Ok <==> pass(old(balls)@, c as int) is Some,
        r is Err ==> r == Err::<(), StepError>(StepError::OutOfRange),
        r is Ok ==> final(balls)@ == pass(old(balls)@, c as int)->Some_0,
        same_radii(old(balls)@, final(balls)@),
{
    let n = balls.len();
    let ghost s0 = balls@;
    let mut i: usize = 0;
    while i < n
        invariant
            n == balls@.len(),
            n == s0.len(),
            s0 == old(balls)@,
            0 <= i <= n,
            valid_restitution(c as int),
            sweep(s0, n as int, c as int, 0, 1) == sweep(balls@, n as int, c as int, i as int, i + 1),
            same_radii(s0, balls@),
        decreases n - i,
    {
        let mut j: usize = i + 1;
        while j < n
            invariant
                n == balls@.len(),
                n == s0.len(),
                s0 == old(balls)@,
                0 <= i < n,
                i + 1 <= j <= n,
                valid_restitution(c as int),
                sweep(s0, n as int, c as int, 0, 1) == sweep(balls@, n as int, c as int, i as int, j as int),
                same_radii(s0, balls@),
            decreases n - j,
        {
            if !(balls[i].is_in_range() && balls[j].is_in_range()) {
                assert(pair_step(balls@, c as int, i as int, j as int) is None);
                return Err(StepError::OutOfRange);
            }
            if check_collides(&balls[i], &balls[j]) {
                resolve_pair(balls, i, j, c);
            }
            j = j + 1;
        }
        i = i + 1;
    }
    Ok(())
}

/// Whether every ball lies in the working range.
pub fn all_balls_in_range(balls: &Vec<Ball>) -> (r: bool)
    ensures
        r == all_in_range(balls@),
{
    let mut i: usize = 0;
    while i < balls.len()
        invariant
            0 <= i <= balls@.len(),
            forall|k: int| 0 <= k < i ==> in_range(#[trigger] balls@[k]),
        decreases balls@.len() - i,
    {
        if !balls[i].is_in_range() {
            return false;
        }
        i = i + 1;
    }
    true
}

/// One simulation tick on the domain `[0, width] x [0, height]`: motion under gravity and the
/// wall check once, then `cfg.substeps` detection and resolution passes. Radii never change.
pub fn tick(balls: &mut Vec<Ball>, cfg: &Config, width: i128, height: i128) -> (r: Result<
    (),
    StepError,
>)
    requires
        cfg.valid(),
    ensures
        same_radii(old(balls)@, final(balls)@),
        !valid_domain(width as int, height as int) ==> r == Err::<(), StepError>(
            StepError::InvalidDomain,
        ) && final(balls)@ == old(balls)@,
        valid_domain(width as int, height as int) && !all_in_range(old(balls)@) ==> r == Err::<
            (),
            StepError,
        >(StepError::OutOfRange) && final(balls)@ == old(balls)@,
        valid_domain(width as int, height as int) && all_in_range(old(balls)@) ==> {
            let out = settle(
                advanced(old(balls)@, *cfg, width as int, height as int),
                cfg.ball_restitution as int,
                cfg.substeps as nat,
            );
            &&& r is Ok <==> out is Some
            &&& r is Ok ==> final(balls)@ == out->Some_0
            &&& r is Err ==> r == Err::<(), StepError>(StepError::OutOfRange)
        },
        r is Ok <==> tick_outcome(old(balls)@, *cfg, width as int, height as int) is Some,
        r is Ok ==> final(balls)@ == tick_outcome(old(balls)@, *cfg, width as int, height as int)->Some_0,
{
    if width <= 0 || width > COORD_LIMIT || height <= 0 || height > COORD_LIMIT {
        return Err(StepError::InvalidDomain);
    }
    if !all_balls_in_range(balls) {
        return Err(StepError::OutOfRange);
    }
    integrate(balls, cfg.gravity);
    resolve_walls(balls, width, height, cfg.wall_restitution);
    let ghost a0 = balls@;
    assert(a0 =~= advanced(old(balls)@, *cfg, width as int, height as int));
    let c = cfg.ball_restitution;
    let total = cfg.substeps;
    let mut k: u32 = 0;
    while k < total
        invariant
            0 <= k <= total,
            total == cfg.substeps,
            c == cfg.ball_restitution,
            cfg.valid(),
            valid_domain(width as int, height as int),
            all_in_range(old(balls)@),
            a0 == advanced(old(balls)@, *cfg, width as int, height as int),
            settle(a0, c as int, total as nat) == settle(balls@, c as int, (total - k) as nat),
            same_radii(old(balls)@, balls@),
        decreases total - k,
    {
        let ghost before = balls@;
        let res = resolve_pass(balls, c);
        if res.is_err() {
            assert(settle(before, c as int, (total - k) as nat) is None);
            return Err(StepError::OutOfRange);
        }
        assert(settle(before, c as int, (total - k) as nat) == settle(
            balls@,
            c as int,
            (total - k - 1) as nat,
        ));
        k = k + 1;
    }
    Ok(())
}

} // verus!
