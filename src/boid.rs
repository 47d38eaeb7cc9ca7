//! Boids, the populations they form, and how a new boid is drawn.
use vstd::prelude::*;
use crate::motion::rescale;
use crate::settings::{RANGE_LIMIT, Settings};
use crate::simulation::{HEIGHT, WIDTH};
use crate::vector::{Vector2D, COORD_LIMIT, ITEM_LIMIT};

verus! {

/// Largest radius a boid may have; its square is the largest mean weight.
pub const RADIUS_LIMIT: u64 = 1048576;

/// One flocking particle. The hue is in thousandths of a radian, below `HUE_LIMIT`.
#[derive(Clone, Copy, Debug, PartialEq, Eq, Structural)]
pub struct Boid {
    pub position: Vector2D,
    pub velocity: Vector2D,
    pub radius: u64,
    pub hue: u64,
}

impl Boid {
    /// Bounded position and velocity, and a positive radius within `RADIUS_LIMIT`.
    pub open spec fn wf(self) -> bool {
        &&& self.position.bounded()
        &&& self.velocity.bounded()
        &&& 0 < self.radius <= RADIUS_LIMIT
    }
}

/// A population that the rules accept: not too many boids, each well formed.
pub open spec fn population_wf(boids: Seq<Boid>) -> bool {
    &&& boids.len() <= ITEM_LIMIT
    &&& forall|i: int| 0 <= i < boids.len() ==> (#[trigger] boids[i]).wf()
}

impl Boid {
    /// Whether this boid is well formed.
    pub fn is_wf(&self) -> (r: bool)
        ensures
            r == self.wf(),
    {
        -COORD_LIMIT <= self.position.x && self.position.x <= COORD_LIMIT && -COORD_LIMIT
            <= self.position.y && self.position.y <= COORD_LIMIT && -COORD_LIMIT
            <= self.velocity.x && self.velocity.x <= COORD_LIMIT && -COORD_LIMIT
            <= self.velocity.y && self.velocity.y <= COORD_LIMIT && 0 < self.radius
            && self.radius <= RADIUS_LIMIT
    }
}

/// Whether `boids` is a population the rules accept.
pub fn population_ok(boids: &Vec<Boid>) -> (r: bool)
    ensures
        r == population_wf(boids@),
{
    if boids.len() > ITEM_LIMIT {
        return false;
    }
    let mut i: usize = 0;
    while i < boids.len()
        invariant
            i <= boids.len(),
            forall|k: int| 0 <= k < i ==> (#[trigger] boids@[k]).wf(),
        decreases boids.len() - i,
    {
        if !boids[i].is_wf() {
            return false;
        }
        i = i + 1;
    }
    true
}

/// Hues are in thousandths of a radian, below a full turn.
pub const HUE_LIMIT: u64 = 6284;

/// Number of equally likely values of the draw that picks a radius.
pub const RADIUS_DRAWS: u64 = 1000;

/// How many random headings a new boid tries before it settles for a fixed one.
pub const SPAWN_TRIES: u32 = 16;

/// Largest radius of a boid under `min_distance`: half of it, at least one.
pub open spec fn max_radius(min_distance: int) -> int {
    if min_distance / 2 >= 1 { min_distance / 2 } else { 1 }
}

/// Smallest radius of a boid under `min_distance`: a sixth of the largest, at least one.
pub open spec fn min_radius(min_distance: int) -> int {
    if max_radius(min_distance) / 6 >= 1 { max_radius(min_distance) / 6 } else { 1 }
}

/// The radius that `draw` (out of `RADIUS_DRAWS`) picks: the draw taken to the
/// third power, so that large boids are rare.
pub open spec fn radius_for(min_distance: int, draw: int) -> int {
    let lo = min_radius(min_distance);
    let hi = max_radius(min_distance);
    lo + draw * draw * draw * (hi - lo) / (RADIUS_DRAWS * RADIUS_DRAWS * RADIUS_DRAWS) as int
}

#[verifier::external_type_specification]
#[verifier::external_body]
pub struct ExThreadRng(rand::rngs::ThreadRng);

/// Relies on `rand::thread_rng`: a handle on this thread's random generator.
#[verifier::external_body]
fn thread_rng() -> (r: rand::rngs::ThreadRng) {
    rand::thread_rng()
}

/// Relies on `rand::Rng::gen_range`: a value drawn from `0..bound`; it panics
/// on an empty range.
#[verifier::external_body]
fn random_below(rng: &mut rand::rngs::ThreadRng, bound: u64) -> (r: u64)
    requires
        bound > 0,
    ensures
        r < bound,
{
    rand::Rng::gen_range(rng, 0..bound)
}

/// The radius that `draw` picks for a boid under `min_distance`.
pub fn spawn_radius(min_distance: i64, draw: u64) -> (r: u64)
    requires
        0 < min_distance <= RANGE_LIMIT,
        draw < RADIUS_DRAWS,
    ensures
        r == radius_for(min_distance as int, draw as int),
        min_radius(min_distance as int) <= r <= max_radius(min_distance as int),
{
    let hi: u64 = if min_distance / 2 >= 1 { (min_distance / 2) as u64 } else { 1 };
    let lo: u64 = if hi / 6 >= 1 { hi / 6 } else { 1 };
    assert(draw * draw <= 1_000_000 && draw * draw * draw <= 1_000_000_000) by (nonlinear_arith)
        requires
            draw < 1000,
    ;
    let cube: u64 = draw * draw * draw;
    assert(cube * (hi - lo) <= 1_000_000_000 * (hi - lo)) by (nonlinear_arith)
        requires
            cube <= 1_000_000_000,
            lo <= hi,
    ;
    let extra: u64 = cube * (hi - lo) / 1_000_000_000;
    assert(extra <= hi - lo) by {
        vstd::arithmetic::div_mod::lemma_div_is_ordered(
            (cube * (hi - lo)) as int,
            (1_000_000_000 * (hi - lo)) as int,
            1_000_000_000,
        );
        vstd::arithmetic::mul::lemma_mul_is_commutative(1_000_000_000, (hi - lo) as int);
        vstd::arithmetic::div_mod::lemma_div_multiples_vanish((hi - lo) as int, 1_000_000_000);
    }
    lo + extra
}

impl Boid {
    /// What holds of a boid drawn by `new_random`: inside the world, a radius
    /// picked by some draw, no faster than the speed limit, a hue below a turn.
    pub open spec fn spawned(self, settings: Settings) -> bool {
        &&& 0 <= self.position.x < WIDTH && 0 <= self.position.y < HEIGHT
        &&& exists|d: int| 0 <= d < RADIUS_DRAWS && self.radius == radius_for(settings.min_distance as int, d)
        &&& self.velocity.norm_sq() <= settings.max_speed * settings.max_speed
        &&& self.hue < HUE_LIMIT
        &&& self.wf()
    }

    /// A boid at a random place in the world, heading in a random direction at
    /// (up to rounding) the speed limit, with a random radius and hue.
    pub fn new_random(settings: &Settings) -> (r: Boid)
        requires
            settings.valid(),
        ensures
            r.spawned(*settings),
    {
        let mut rng = thread_rng();
        let x = random_below(&mut rng, WIDTH as u64) as i64;
        let y = random_below(&mut rng, HEIGHT as u64) as i64;
        let draw = random_below(&mut rng, RADIUS_DRAWS);
        let radius = spawn_radius(settings.min_distance, draw);
        let s = settings.max_speed;
        let mut velocity = Vector2D::new(s, 0);
        assert(velocity.norm_sq() == s * s);
        let mut tries: u32 = 0;
        while tries < SPAWN_TRIES
            invariant
                settings.valid(),
                s == settings.max_speed,
                velocity.norm_sq() <= s * s,
                -s <= velocity.x <= s && -s <= velocity.y <= s,
            decreases SPAWN_TRIES - tries,
        {
            let dx = random_below(&mut rng, (2 * s + 1) as u64) as i128 - s as i128;
            let dy = random_below(&mut rng, (2 * s + 1) as u64) as i128 - s as i128;
            assert(0 <= dx * dx <= s * s) by (nonlinear_arith)
                requires
                    -s <= dx <= s,
            ;
            assert(0 <= dy * dy <= s * s) by (nonlinear_arith)
                requires
                    -s <= dy <= s,
            ;
            assert(s * s <= 0x100_0000_0000) by (nonlinear_arith)
                requires
                    0 < s <= 0x10_0000,
            ;
            let n: i128 = dx * dx + dy * dy;
            if (dx != 0 || dy != 0) && n <= s as i128 * s as i128 {
                velocity = rescale(dx, dy, s);
                break;
            }
            tries = tries + 1;
        }
        let hue = random_below(&mut rng, HUE_LIMIT);
        proof {
            assert(max_radius(settings.min_distance as int) <= RADIUS_LIMIT);
        }
        Boid { position: Vector2D::new(x, y), velocity, radius, hue }
    }
}

} // verus!
