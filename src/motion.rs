//! Integration of one step: the steered velocity, its speed cap, the new position.
use vstd::prelude::*;
use crate::boid::{Boid, population_wf};
use crate::rules::{
    alignment_delta, cohesion_delta, lemma_component_within_length, lemma_no_neighbours,
    lemma_separation_idle, separation, separation_delta, view_wf,
};
use crate::settings::{RANGE_LIMIT, Settings};
use crate::vector::{Vector2D, int_sqrt, is_floor_sqrt, norm_sq};
use crate::view::{VisibleBoid, lemma_visible_indices_below, view_of, visible_boids, visible_indices};

verus! {

/// `n` rounded up to a whole square root.
pub open spec fn ceil_sqrt(n: int) -> int {
    if int_sqrt(n) * int_sqrt(n) == n {
        int_sqrt(n)
    } else {
        int_sqrt(n) + 1
    }
}

/// `a * max / m`, rounded toward zero.
pub open spec fn shrink(a: int, max: int, m: int) -> int {
    if a >= 0 {
        a * max / m
    } else {
        -((-a) * max / m)
    }
}

/// The vector `(x, y)` brought to length `max`: each component multiplied by
/// `max / ceil_sqrt(|v|²)`, rounded toward zero.
pub open spec fn rescaled(x: int, y: int, max: int) -> (int, int) {
    let m = ceil_sqrt(norm_sq(x, y));
    (shrink(x, max, m), shrink(y, max, m))
}

/// The velocity `(x, y)` with its length capped at `max`: unchanged when it is
/// no longer, else rescaled to `max`.
pub open spec fn clamped(x: int, y: int, max: int) -> (int, int) {
    if norm_sq(x, y) <= max * max {
        (x, y)
    } else {
        rescaled(x, y, max)
    }
}

proof fn lemma_shrink(a: int, max: int, m: int)
    requires
        m > 0,
        max > 0,
    ensures
        shrink(a, max, m) * shrink(a, max, m) * (m * m) <= a * a * (max * max),
{
    let b = if a >= 0 { a } else { -a };
    let q = b * max / m;
    assert(b * max >= 0) by (nonlinear_arith)
        requires
            b >= 0,
            max > 0,
    ;
    assert(b * b == a * a) by (nonlinear_arith)
        requires
            b == a || b == -a,
    ;
    vstd::arithmetic::div_mod::lemma_fundamental_div_mod(b * max, m);
    vstd::arithmetic::div_mod::lemma_mod_bound(b * max, m);
    vstd::arithmetic::div_mod::lemma_div_pos_is_pos(b * max, m);
    assert(q * q * (m * m) <= a * a * (max * max)) by (nonlinear_arith)
        requires
            b * max == m * q + (b * max) % m,
            0 <= (b * max) % m,
            q >= 0,
            m > 0,
            b * b == a * a,
    ;
    assert(shrink(a, max, m) * shrink(a, max, m) == q * q) by (nonlinear_arith)
        requires
            shrink(a, max, m) == q || shrink(a, max, m) == -q,
    ;
}

/// Rescaling a non-zero vector to `max` never makes it longer than `max`.
pub proof fn lemma_rescaled_within(x: int, y: int, max: int)
    requires
        max > 0,
        norm_sq(x, y) > 0,
    ensures
        norm_sq(rescaled(x, y, max).0, rescaled(x, y, max).1) <= max * max,
{
    let n = norm_sq(x, y);
    crate::vector::lemma_sqrt_exists(n);
    let r = int_sqrt(n);
    let m = ceil_sqrt(n);
    assert(n <= m * m && m > 0) by (nonlinear_arith)
        requires
            r * r <= n < (r + 1) * (r + 1),
            m == r || m == r + 1,
            m == r ==> r * r == n,
            n >= 1,
            r >= 0,
    ;
    lemma_shrink(x, max, m);
    lemma_shrink(y, max, m);
    let qx = shrink(x, max, m);
    let qy = shrink(y, max, m);
    assert(qx * qx + qy * qy <= max * max) by (nonlinear_arith)
        requires
            qx * qx * (m * m) <= x * x * (max * max),
            qy * qy * (m * m) <= y * y * (max * max),
            n == x * x + y * y,
            n <= m * m,
            m > 0,
    ;
}

/// Capping the speed leaves a velocity no longer than the cap, whatever it was.
pub proof fn lemma_clamp_within(x: int, y: int, max: int)
    requires
        max > 0,
    ensures
        norm_sq(clamped(x, y, max).0, clamped(x, y, max).1) <= max * max,
{
    if norm_sq(x, y) > max * max {
        assert(max * max > 0) by (nonlinear_arith)
            requires
                max > 0,
        ;
        lemma_rescaled_within(x, y, max);
    }
}

/// Brings the non-zero vector `(x, y)` to length `max`, rounding toward zero.
pub fn rescale(x: i128, y: i128, max: i64) -> (r: Vector2D)
    requires
        -0x4000_0000_0000_0000 <= x <= 0x4000_0000_0000_0000,
        -0x4000_0000_0000_0000 <= y <= 0x4000_0000_0000_0000,
        x != 0 || y != 0,
        0 < max <= RANGE_LIMIT,
    ensures
        (r.x as int, r.y as int) == rescaled(x as int, y as int, max as int),
        r.norm_sq() <= max * max,
        -max <= r.x <= max && -max <= r.y <= max,
{
    assert(0 <= x * x <= 0x1000_0000_0000_0000_0000_0000_0000_0000int
        && 0 <= y * y <= 0x1000_0000_0000_0000_0000_0000_0000_0000int) by (nonlinear_arith)
        requires
            -0x4000_0000_0000_0000 <= x <= 0x4000_0000_0000_0000,
            -0x4000_0000_0000_0000 <= y <= 0x4000_0000_0000_0000,
    ;
    assert(x * x + y * y > 0) by (nonlinear_arith)
        requires
            x != 0 || y != 0,
    ;
    proof {
        lemma_rescaled_within(x as int, y as int, max as int);
        assert(is_floor_sqrt(max * max, max as int)) by (nonlinear_arith)
            requires
                max > 0,
        ;
    }
    let n: u128 = (x * x) as u128 + (y * y) as u128;
    let s = crate::vector::floor_sqrt(n);
    assert(s <= 0x8000_0000_0000_0000) by (nonlinear_arith)
        requires
            s * s <= n,
            n <= 0x2000_0000_0000_0000_0000_0000_0000_0000int,
    ;
    let m: u128 = if s * s == n { s } else { s + 1 };
    assert(m > 0) by (nonlinear_arith)
        requires
            n < (s + 1) * (s + 1),
            n > 0,
            m == s || m == s + 1,
            m == s ==> s * s == n,
    ;
    let ax: u128 = if x >= 0 { x as u128 } else { (-x) as u128 };
    let ay: u128 = if y >= 0 { y as u128 } else { (-y) as u128 };
    assert(ax * max <= 0x4000_0000_0000_0000 * 0x10_0000 && ay * max <= 0x4000_0000_0000_0000 * 0x10_0000)
        by (nonlinear_arith)
        requires
            ax <= 0x4000_0000_0000_0000,
            ay <= 0x4000_0000_0000_0000,
            0 < max <= 0x10_0000,
    ;
    let qx: u128 = ax * (max as u128) / m;
    let qy: u128 = ay * (max as u128) / m;
    proof {
        vstd::arithmetic::div_mod::lemma_div_pos_is_pos((ax * max) as int, m as int);
        vstd::arithmetic::div_mod::lemma_div_pos_is_pos((ay * max) as int, m as int);
    }
    let rx: i128 = if x >= 0 { qx as i128 } else { -(qx as i128) };
    let ry: i128 = if y >= 0 { qy as i128 } else { -(qy as i128) };
    proof {
        assert(m == ceil_sqrt(n as int));
        assert(rx == shrink(x as int, max as int, m as int));
        assert(ry == shrink(y as int, max as int, m as int));
        assert(rx * rx <= max * max && ry * ry <= max * max) by (nonlinear_arith)
            requires
                rx * rx + ry * ry <= max * max,
        ;
        lemma_component_within_length(rx as int, max * max, max as int);
        lemma_component_within_length(ry as int, max * max, max as int);
    }
    Vector2D::new(rx as i64, ry as i64)
}

/// Caps the length of the velocity `(x, y)` at `max`.
pub fn clamp_speed(x: i128, y: i128, max: i64) -> (r: Vector2D)
    requires
        -0x4000_0000_0000_0000 <= x <= 0x4000_0000_0000_0000,
        -0x4000_0000_0000_0000 <= y <= 0x4000_0000_0000_0000,
        0 < max <= RANGE_LIMIT,
    ensures
        (r.x as int, r.y as int) == clamped(x as int, y as int, max as int),
        r.norm_sq() <= max * max,
        -max <= r.x <= max && -max <= r.y <= max,
{
    assert(0 <= x * x <= 0x1000_0000_0000_0000_0000_0000_0000_0000int
        && 0 <= y * y <= 0x1000_0000_0000_0000_0000_0000_0000_0000int) by (nonlinear_arith)
        requires
            -0x4000_0000_0000_0000 <= x <= 0x4000_0000_0000_0000,
            -0x4000_0000_0000_0000 <= y <= 0x4000_0000_0000_0000,
    ;
    assert(0 < max * max <= 0x100_0000_0000) by (nonlinear_arith)
        requires
            0 < max <= 0x10_0000,
    ;
    let n: u128 = (x * x) as u128 + (y * y) as u128;
    let max_sq: u128 = (max as u128) * (max as u128);
    if n <= max_sq {
        proof {
            assert(is_floor_sqrt(max * max, max as int)) by (nonlinear_arith)
                requires
                    max > 0,
            ;
            assert(x * x <= max * max && y * y <= max * max) by (nonlinear_arith)
                requires
                    x * x + y * y <= max * max,
            ;
            lemma_component_within_length(x as int, max * max, max as int);
            lemma_component_within_length(y as int, max * max, max as int);
        }
        Vector2D::new(x as i64, y as i64)
    } else {
        assert(x != 0 || y != 0);
        rescale(x, y, max)
    }
}

/// Velocity of boid `s` plus the three rule deltas, before the speed cap.
pub open spec fn steered(boids: Seq<Boid>, s: int, settings: Settings) -> (int, int) {
    let me = boids[s];
    let view = view_of(boids, s, settings.visible_range as int);
    let c = cohesion_delta(me, boids, view, settings.cohesion_factor as int);
    let a = alignment_delta(me, boids, view, settings.alignment_factor as int);
    let p = separation_delta(view, settings.min_distance as int, settings.separation_factor as int);
    (me.velocity.x + c.0 + a.0 + p.0, me.velocity.y + c.1 + a.1 + p.1)
}

/// Velocity of boid `s` after one step: the steered velocity, speed capped.
pub open spec fn next_velocity(boids: Seq<Boid>, s: int, settings: Settings) -> (int, int) {
    clamped(steered(boids, s, settings).0, steered(boids, s, settings).1, settings.max_speed as int)
}

/// Boid `s` after one step: the new velocity, the position moved by it, the
/// radius and hue kept.
pub open spec fn next_boid(boids: Seq<Boid>, s: int, settings: Settings, r: Boid) -> bool {
    let (vx, vy) = next_velocity(boids, s, settings);
    &&& r.velocity.x == vx && r.velocity.y == vy
    &&& r.position.x == boids[s].position.x + vx
    &&& r.position.y == boids[s].position.y + vy
    &&& r.radius == boids[s].radius
    &&& r.hue == boids[s].hue
}

impl Boid {
    /// Boid `index` of `boids` one step later, computed from `boids` alone.
    pub fn step(boids: &Vec<Boid>, index: usize, settings: &Settings) -> (r: Boid)
        requires
            population_wf(boids@),
            index < boids.len(),
            settings.valid(),
        ensures
            next_boid(boids@, index as int, *settings, r),
            r.velocity.norm_sq() <= settings.max_speed * settings.max_speed,
            r.velocity.bounded(),
    {
        let me = boids[index];
        assert(boids@[index as int].wf());
        let view = visible_boids(boids, index, settings.visible_range);
        proof {
            lemma_visible_indices_below(
                boids@,
                index as int,
                settings.visible_range as int,
                boids.len() as int,
            );
            assert(view_wf(boids@, view@));
        }
        let c = me.coherence(boids, &view, settings.cohesion_factor);
        let a = me.alignment(boids, &view, settings.alignment_factor);
        let p = separation(&view, settings.min_distance, settings.separation_factor);
        let vx: i128 = me.velocity.x as i128 + c.x as i128 + a.x as i128 + p.x as i128;
        let vy: i128 = me.velocity.y as i128 + c.y as i128 + a.y as i128 + p.y as i128;
        let v = clamp_speed(vx, vy, settings.max_speed);
        Boid {
            position: Vector2D::new(me.position.x + v.x, me.position.y + v.y),
            velocity: v,
            radius: me.radius,
            hue: me.hue,
        }
    }
}

/// A boid alone in its population sees nobody: the rules leave its velocity
/// as it was, before the speed cap.
pub proof fn lemma_lone_boid(boids: Seq<Boid>, settings: Settings)
    requires
        boids.len() == 1,
    ensures
        view_of(boids, 0, settings.visible_range as int) == Seq::<VisibleBoid>::empty(),
        steered(boids, 0, settings) == (boids[0].velocity.x as int, boids[0].velocity.y as int),
{
    let view = view_of(boids, 0, settings.visible_range as int);
    reveal_with_fuel(visible_indices, 2);
    assert(visible_indices(boids, 0, settings.visible_range as int, 1) =~= Seq::<int>::empty());
    assert(view =~= Seq::<VisibleBoid>::empty());
    lemma_no_neighbours(boids[0], boids, settings.cohesion_factor as int);
    lemma_no_neighbours(boids[0], boids, settings.alignment_factor as int);
    lemma_separation_idle(view, settings.min_distance as int, settings.separation_factor as int);
}

} // verus!
