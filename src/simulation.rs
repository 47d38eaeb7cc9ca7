//! The population-wide step and the messages that drive it.
use vstd::prelude::*;
use crate::boid::{Boid, population_wf};
use crate::motion::next_boid;
use crate::vector::{Vector2D, floor_div};
use crate::settings::Settings;

verus! {

/// Width of the world, in world units.
pub const WIDTH: i64 = 1600;

/// Height of the world, in world units.
pub const HEIGHT: i64 = 1000;

/// What the driver sends to the simulation.
#[derive(Clone, Copy, Debug, PartialEq, Eq, Structural)]
pub enum Msg {
    /// Advance the flock by one step.
    Tick,
}

/// The next generation of `boids`: each boid stepped from the same snapshot.
pub fn advance(boids: &Vec<Boid>, settings: &Settings) -> (r: Vec<Boid>)
    requires
        population_wf(boids@),
        settings.valid(),
    ensures
        r@.len() == boids@.len(),
        forall|i: int| 0 <= i < r@.len() ==> next_boid(boids@, i, *settings, #[trigger] r@[i]),
        forall|i: int|
            0 <= i < r@.len() ==> (#[trigger] r@[i]).velocity.norm_sq() <= settings.max_speed
                * settings.max_speed,
{
    let mut next: Vec<Boid> = Vec::new();
    let mut i: usize = 0;
    while i < boids.len()
        invariant
            population_wf(boids@),
            settings.valid(),
            i <= boids.len(),
            next@.len() == i,
            forall|k: int| 0 <= k < i ==> next_boid(boids@, k, *settings, #[trigger] next@[k]),
            forall|k: int|
                0 <= k < i ==> (#[trigger] next@[k]).velocity.norm_sq() <= settings.max_speed
                    * settings.max_speed,
        decreases boids.len() - i,
    {
        let b = Boid::step(boids, i, settings);
        next.push(b);
        i = i + 1;
    }
    next
}

/// `c` brought into `0..size` by wrapping around.
pub fn wrap_coordinate(c: i64, size: i64) -> (r: i64)
    requires
        size > 0,
    ensures
        r == (c as int) % (size as int),
        0 <= r < size,
{
    let q = floor_div(c as i128, size as i128);
    proof {
        vstd::arithmetic::div_mod::lemma_fundamental_div_mod(c as int, size as int);
        vstd::arithmetic::div_mod::lemma_mod_bound(c as int, size as int);
    }
    assert(c - q * size == c % size) by (nonlinear_arith)
        requires
            c == size * q + c % size,
    ;
    (c as i128 - q * size as i128) as i64
}

/// The boids with positions wrapped around the edges of the world; all else kept.
pub fn wrap_around(boids: &Vec<Boid>) -> (r: Vec<Boid>)
    ensures
        r@.len() == boids@.len(),
        forall|i: int| 0 <= i < r@.len() ==> {
            &&& (#[trigger] r@[i]).position.x == (boids@[i].position.x as int) % (WIDTH as int)
            &&& r@[i].position.y == (boids@[i].position.y as int) % (HEIGHT as int)
            &&& r@[i].velocity == boids@[i].velocity
            &&& r@[i].radius == boids@[i].radius
            &&& r@[i].hue == boids@[i].hue
        },
{
    let mut r: Vec<Boid> = Vec::new();
    let mut i: usize = 0;
    while i < boids.len()
        invariant
            i <= boids.len(),
            r@.len() == i,
            forall|k: int| 0 <= k < i ==> {
                &&& (#[trigger] r@[k]).position.x == (boids@[k].position.x as int) % (WIDTH as int)
                &&& r@[k].position.y == (boids@[k].position.y as int) % (HEIGHT as int)
                &&& r@[k].velocity == boids@[k].velocity
                &&& r@[k].radius == boids@[k].radius
                &&& r@[k].hue == boids@[k].hue
            },
        decreases boids.len() - i,
    {
        let b = boids[i];
        let x = wrap_coordinate(b.position.x, WIDTH);
        let y = wrap_coordinate(b.position.y, HEIGHT);
        r.push(Boid { position: Vector2D::new(x, y), velocity: b.velocity, radius: b.radius, hue: b.hue });
        i = i + 1;
    }
    r
}

/// `count` boids drawn at random.
pub fn spawn_population(settings: &Settings, count: usize) -> (r: Vec<Boid>)
    requires
        settings.valid(),
    ensures
        r@.len() == count,
        forall|i: int| 0 <= i < r@.len() ==> (#[trigger] r@[i]).spawned(*settings),
{
    let mut boids: Vec<Boid> = Vec::new();
    let mut i: usize = 0;
    while i < count
        invariant
            settings.valid(),
            i <= count,
            boids@.len() == i,
            forall|k: int| 0 <= k < i ==> (#[trigger] boids@[k]).spawned(*settings),
        decreases count - i,
    {
        boids.push(Boid::new_random(settings));
        i = i + 1;
    }
    boids
}

} // verus!
