//! The three flocking rules: cohesion, alignment and separation.
use vstd::prelude::*;
use crate::boid::{Boid, RADIUS_LIMIT, population_wf};
use crate::settings::{FACTOR_SCALE, RANGE_LIMIT, factor_ok};
use crate::vector::{
    Vector2D, COORD_LIMIT, ITEM_LIMIT, floor_div, is_floor_sqrt, mean_of, weighted_mean,
};
use crate::view::VisibleBoid;

verus! {

/// `d` weighed by a factor in thousandths, rounded down.
pub open spec fn scaled(d: int, f: int) -> int {
    d * f / FACTOR_SCALE as int
}

/// Position and mass (`radius²`) of each neighbour in `view`.
pub open spec fn cohesion_items(boids: Seq<Boid>, view: Seq<VisibleBoid>) -> Seq<(Vector2D, u64)> {
    view.map_values(
        |r: VisibleBoid|
            (
                boids[r.index as int].position,
                (boids[r.index as int].radius * boids[r.index as int].radius) as u64,
            ),
    )
}

/// Velocity of each neighbour in `view`, each weighing one.
pub open spec fn alignment_items(boids: Seq<Boid>, view: Seq<VisibleBoid>) -> Seq<(Vector2D, u64)> {
    view.map_values(|r: VisibleBoid| (boids[r.index as int].velocity, 1u64))
}

/// The pull from `from` toward `mean`, weighed by `f`; nothing without a mean.
pub open spec fn toward(mean: Option<(int, int)>, from: Vector2D, f: int) -> (int, int) {
    match mean {
        None => (0, 0),
        Some((mx, my)) => (scaled(mx - from.x, f), scaled(my - from.y, f)),
    }
}

/// Cohesion delta of `subject`: toward the mass-weighted centre of its neighbours.
pub open spec fn cohesion_delta(subject: Boid, boids: Seq<Boid>, view: Seq<VisibleBoid>, f: int) -> (int, int) {
    toward(mean_of(cohesion_items(boids, view)), subject.position, f)
}

/// Alignment delta of `subject`: toward the mean velocity of its neighbours.
pub open spec fn alignment_delta(subject: Boid, boids: Seq<Boid>, view: Seq<VisibleBoid>, f: int) -> (int, int) {
    toward(mean_of(alignment_items(boids, view)), subject.velocity, f)
}

/// Repulsion from one neighbour: along the negated offset, by how much it is
/// closer than `min_distance`. A neighbour at the very same place gives none.
pub open spec fn separation_term(r: VisibleBoid, min_distance: int) -> (int, int) {
    if 0 < r.distance < min_distance {
        (-r.offset.x * (min_distance - r.distance), -r.offset.y * (min_distance - r.distance))
    } else {
        (0, 0)
    }
}

/// Sum of the repulsions from the neighbours in `view`.
pub open spec fn separation_push(view: Seq<VisibleBoid>, min_distance: int) -> (int, int)
    decreases view.len(),
{
    if view.len() == 0 {
        (0, 0)
    } else {
        let (px, py) = separation_push(view.drop_last(), min_distance);
        let (tx, ty) = separation_term(view.last(), min_distance);
        (px + tx, py + ty)
    }
}

/// Separation delta: the summed repulsion weighed by `f`.
pub open spec fn separation_delta(view: Seq<VisibleBoid>, min_distance: int, f: int) -> (int, int) {
    let (px, py) = separation_push(view, min_distance);
    (scaled(px, f), scaled(py, f))
}

/// `view` lists well-formed neighbours drawn from `boids`, not too many.
pub open spec fn view_wf(boids: Seq<Boid>, view: Seq<VisibleBoid>) -> bool {
    &&& view.len() <= ITEM_LIMIT
    &&& forall|i: int| 0 <= i < view.len() ==> (#[trigger] view[i]).index < boids.len() && view[i].wf()
}

/// A component of a vector is no longer than its rounded-down length.
pub proof fn lemma_component_within_length(c: int, n: int, d: int)
    requires
        c * c <= n,
        is_floor_sqrt(n, d),
    ensures
        -d <= c <= d,
{
    if c > d {
        assert((d + 1) * (d + 1) <= c * c) by (nonlinear_arith)
            requires
                c >= d + 1,
                d >= 0,
        ;
    } else if c < -d {
        assert((d + 1) * (d + 1) <= c * c) by (nonlinear_arith)
            requires
                -c >= d + 1,
                d >= 0,
        ;
    }
}

/// `a` weighed by a factor in thousandths, rounded down.
fn scale_by_factor(a: i128, f: i64) -> (r: i128)
    requires
        -0x1_0000_0000_0000_0000 <= a <= 0x1_0000_0000_0000_0000,
        factor_ok(f as int),
    ensures
        r == scaled(a as int, f as int),
        -0x1_0000_0000_0000_0000 <= r <= 0x1_0000_0000_0000_0000,
{
    assert(-0x1_0000_0000_0000_0000 * 1000 <= a * f <= 0x1_0000_0000_0000_0000 * 1000)
        by (nonlinear_arith)
        requires
            -0x1_0000_0000_0000_0000 <= a <= 0x1_0000_0000_0000_0000,
            -1000 <= f <= 1000,
    ;
    let r = floor_div(a * f as i128, FACTOR_SCALE as i128);
    proof {
        crate::vector::lemma_quotient_bounded(
            a * f,
            1000,
            0x1_0000_0000_0000_0000,
        );
    }
    r
}

/// The pull from `from` toward `mean`, weighed by `f`.
fn toward_mean(mean: Option<Vector2D>, from: Vector2D, f: i64) -> (r: Vector2D)
    requires
        mean matches Some(m) ==> m.bounded(),
        from.bounded(),
        factor_ok(f as int),
    ensures
        (r.x as int, r.y as int) == toward(
            match mean {
                Some(m) => Some((m.x as int, m.y as int)),
                None => None,
            },
            from,
            f as int,
        ),
        -2 * COORD_LIMIT <= r.x <= 2 * COORD_LIMIT,
        -2 * COORD_LIMIT <= r.y <= 2 * COORD_LIMIT,
{
    match mean {
        None => Vector2D::new(0, 0),
        Some(m) => {
            let dx = (m.x as i128 - from.x as i128);
            let dy = (m.y as i128 - from.y as i128);
            let sx = scale_by_factor(dx, f);
            let sy = scale_by_factor(dy, f);
            proof {
                assert(-2 * COORD_LIMIT * 1000 <= dx * f <= 2 * COORD_LIMIT * 1000) by (nonlinear_arith)
                    requires
                        -2 * COORD_LIMIT <= dx <= 2 * COORD_LIMIT,
                        -1000 <= f <= 1000,
                ;
                assert(-2 * COORD_LIMIT * 1000 <= dy * f <= 2 * COORD_LIMIT * 1000) by (nonlinear_arith)
                    requires
                        -2 * COORD_LIMIT <= dy <= 2 * COORD_LIMIT,
                        -1000 <= f <= 1000,
                ;
                crate::vector::lemma_quotient_bounded(dx * f, 1000, 2 * COORD_LIMIT);
                crate::vector::lemma_quotient_bounded(dy * f, 1000, 2 * COORD_LIMIT);
            }
            Vector2D::new(sx as i64, sy as i64)
        },
    }
}

impl Boid {
    /// Cohesion: steers toward the centre of the neighbours in `view`, each
    /// weighing its `radius²`; zero when there is none.
    pub fn coherence(&self, boids: &Vec<Boid>, view: &Vec<VisibleBoid>, factor: i64) -> (r: Vector2D)
        requires
            self.wf(),
            population_wf(boids@),
            view_wf(boids@, view@),
            factor_ok(factor as int),
        ensures
            (r.x as int, r.y as int) == cohesion_delta(*self, boids@, view@, factor as int),
            -2 * COORD_LIMIT <= r.x <= 2 * COORD_LIMIT,
            -2 * COORD_LIMIT <= r.y <= 2 * COORD_LIMIT,
    {
        let mut items: Vec<(Vector2D, u64)> = Vec::new();
        let mut i: usize = 0;
        while i < view.len()
            invariant
                population_wf(boids@),
                view_wf(boids@, view@),
                i <= view.len(),
                items@ == cohesion_items(boids@, view@.take(i as int)),
            decreases view.len() - i,
        {
            let other = boids[view[i].index];
            assert(boids@[view@[i as int].index as int].wf());
            assert(other.radius * other.radius <= crate::vector::WEIGHT_LIMIT) by (nonlinear_arith)
                requires
                    other.radius <= RADIUS_LIMIT,
            ;
            items.push((other.position, other.radius * other.radius));
            i = i + 1;
            assert(items@ =~= cohesion_items(boids@, view@.take(i as int)));
        }
        assert(view@.take(view.len() as int) =~= view@);
        assert(crate::vector::mean_input(items@)) by {
            assert forall|k: int| 0 <= k < items@.len() implies (#[trigger] items@[k]).0.bounded()
                && items@[k].1 <= crate::vector::WEIGHT_LIMIT by {
                let b = boids@[view@[k].index as int];
                assert(b.wf());
                assert(b.radius * b.radius <= crate::vector::WEIGHT_LIMIT) by (nonlinear_arith)
                    requires
                        b.radius <= RADIUS_LIMIT,
                ;
            }
        }
        let mean = weighted_mean(&items);
        toward_mean(mean, self.position, factor)
    }

    /// Alignment: steers toward the mean velocity of the neighbours in `view`;
    /// zero when there is none.
    pub fn alignment(&self, boids: &Vec<Boid>, view: &Vec<VisibleBoid>, factor: i64) -> (r: Vector2D)
        requires
            self.wf(),
            population_wf(boids@),
            view_wf(boids@, view@),
            factor_ok(factor as int),
        ensures
            (r.x as int, r.y as int) == alignment_delta(*self, boids@, view@, factor as int),
            -2 * COORD_LIMIT <= r.x <= 2 * COORD_LIMIT,
            -2 * COORD_LIMIT <= r.y <= 2 * COORD_LIMIT,
    {
        let mut items: Vec<(Vector2D, u64)> = Vec::new();
        let mut i: usize = 0;
        while i < view.len()
            invariant
                population_wf(boids@),
                view_wf(boids@, view@),
                i <= view.len(),
                items@ == alignment_items(boids@, view@.take(i as int)),
            decreases view.len() - i,
        {
            let other = boids[view[i].index];
            items.push((other.velocity, 1));
            i = i + 1;
            assert(items@ =~= alignment_items(boids@, view@.take(i as int)));
        }
        assert(view@.take(view.len() as int) =~= view@);
        assert(crate::vector::mean_input(items@)) by {
            assert forall|k: int| 0 <= k < items@.len() implies (#[trigger] items@[k]).0.bounded()
                && items@[k].1 <= crate::vector::WEIGHT_LIMIT by {
                assert(boids@[view@[k].index as int].wf());
            }
        }
        let mean = weighted_mean(&items);
        toward_mean(mean, self.velocity, factor)
    }
}

/// Separation: pushes away from every neighbour in `view` closer than
/// `min_distance`; zero when there is none.
pub fn separation(view: &Vec<VisibleBoid>, min_distance: i64, factor: i64) -> (r: Vector2D)
    requires
        view@.len() <= ITEM_LIMIT,
        forall|i: int| 0 <= i < view@.len() ==> (#[trigger] view@[i]).wf(),
        0 < min_distance <= crate::settings::RANGE_LIMIT,
        factor_ok(factor as int),
    ensures
        (r.x as int, r.y as int) == separation_delta(view@, min_distance as int, factor as int),
        -0x1000_0000_0000_0000 <= r.x <= 0x1000_0000_0000_0000,
        -0x1000_0000_0000_0000 <= r.y <= 0x1000_0000_0000_0000,
{
    let mut px: i128 = 0;
    let mut py: i128 = 0;
    let mut i: usize = 0;
    while i < view.len()
        invariant
            view@.len() <= ITEM_LIMIT,
            forall|i: int| 0 <= i < view@.len() ==> (#[trigger] view@[i]).wf(),
            0 < min_distance <= crate::settings::RANGE_LIMIT,
            i <= view.len(),
            (px as int, py as int) == separation_push(view@.take(i as int), min_distance as int),
            -(i * 0x100_0000_0000) <= px <= i * 0x100_0000_0000,
            -(i * 0x100_0000_0000) <= py <= i * 0x100_0000_0000,
        decreases view.len() - i,
    {
        let r = view[i];
        assert(view@.take(i + 1).drop_last() =~= view@.take(i as int));
        assert(view@.take(i + 1).last() == r);
        assert(view@[i as int].wf());
        if 0 < r.distance && r.distance < min_distance as u64 {
            let d = r.distance as i128;
            let k = min_distance as i128 - d;
            proof {
                let n = r.offset.norm_sq();
                assert(0 <= r.offset.x * r.offset.x <= n && 0 <= r.offset.y * r.offset.y <= n)
                    by (nonlinear_arith)
                    requires
                        n == r.offset.x * r.offset.x + r.offset.y * r.offset.y,
                ;
                crate::vector::lemma_sqrt_exists(n);
                lemma_component_within_length(r.offset.x as int, n, d as int);
                lemma_component_within_length(r.offset.y as int, n, d as int);
                assert(-0x100_0000_0000 <= r.offset.x * k <= 0x100_0000_0000) by (nonlinear_arith)
                    requires
                        -0x10_0000 <= r.offset.x <= 0x10_0000,
                        0 < k <= 0x10_0000,
                ;
                assert(-0x100_0000_0000 <= r.offset.y * k <= 0x100_0000_0000) by (nonlinear_arith)
                    requires
                        -0x10_0000 <= r.offset.y <= 0x10_0000,
                        0 < k <= 0x10_0000,
                ;
            }
            assert(-r.offset.x * (min_distance - r.distance) == -(r.offset.x * k)
                && -r.offset.y * (min_distance - r.distance) == -(r.offset.y * k)) by (nonlinear_arith)
                requires
                    k == min_distance - r.distance,
            ;
            px = px - r.offset.x as i128 * k;
            py = py - r.offset.y as i128 * k;
        }
        assert((i + 1) * 0x100_0000_0000 == i * 0x100_0000_0000 + 0x100_0000_0000) by (nonlinear_arith);
        i = i + 1;
    }
    assert(view@.take(view.len() as int) =~= view@);
    assert(view.len() * 0x100_0000_0000 <= 0x1000_0000_0000_0000) by (nonlinear_arith)
        requires
            view.len() <= ITEM_LIMIT,
    ;
    let sx = scale_by_factor(px, factor);
    let sy = scale_by_factor(py, factor);
    proof {
        assert(-0x1000_0000_0000_0000 * 1000 <= px * factor <= 0x1000_0000_0000_0000 * 1000) by (nonlinear_arith)
            requires
                -0x1000_0000_0000_0000 <= px <= 0x1000_0000_0000_0000,
                -1000 <= factor <= 1000,
        ;
        assert(-0x1000_0000_0000_0000 * 1000 <= py * factor <= 0x1000_0000_0000_0000 * 1000) by (nonlinear_arith)
            requires
                -0x1000_0000_0000_0000 <= py <= 0x1000_0000_0000_0000,
                -1000 <= factor <= 1000,
        ;
        crate::vector::lemma_quotient_bounded(px * factor, 1000, 0x1000_0000_0000_0000);
        crate::vector::lemma_quotient_bounded(py * factor, 1000, 0x1000_0000_0000_0000);
    }
    Vector2D::new(sx as i64, sy as i64)
}

/// With no neighbour in view, cohesion and alignment contribute nothing.
pub proof fn lemma_no_neighbours(subject: Boid, boids: Seq<Boid>, f: int)
    ensures
        cohesion_delta(subject, boids, Seq::empty(), f) == (0int, 0int),
        alignment_delta(subject, boids, Seq::empty(), f) == (0int, 0int),
{
    assert(cohesion_items(boids, Seq::empty()) =~= Seq::empty());
    assert(alignment_items(boids, Seq::empty()) =~= Seq::empty());
    crate::vector::lemma_mean_absent(Seq::empty());
}

/// Separation contributes nothing when no neighbour is closer than `min_distance`.
pub proof fn lemma_separation_idle(view: Seq<VisibleBoid>, min_distance: int, f: int)
    requires
        forall|i: int| 0 <= i < view.len() ==> (#[trigger] view[i]).distance >= min_distance,
    ensures
        separation_delta(view, min_distance, f) == (0int, 0int),
    decreases view.len(),
{
    lemma_push_idle(view, min_distance);
}

proof fn lemma_push_idle(view: Seq<VisibleBoid>, min_distance: int)
    requires
        forall|i: int| 0 <= i < view.len() ==> (#[trigger] view[i]).distance >= min_distance,
    ensures
        separation_push(view, min_distance) == (0int, 0int),
    decreases view.len(),
{
    if view.len() > 0 {
        let t = view.drop_last();
        assert forall|i: int| 0 <= i < t.len() implies (#[trigger] t[i]).distance >= min_distance by {
            assert(t[i] == view[i]);
        }
        lemma_push_idle(t, min_distance);
        assert(view.last() == view[view.len() - 1]);
    }
}

/// A single neighbour closer than `min_distance`, and not at the very same
/// place, pushes straight away from itself; weighed by a positive factor, no
/// component of the delta points toward it.
pub proof fn lemma_separation_single(r: VisibleBoid, min_distance: int, f: int)
    requires
        0 < r.distance < min_distance,
    ensures
        min_distance - r.distance > 0,
        separation_push(seq![r], min_distance) == (
            -(min_distance - r.distance) * r.offset.x,
            -(min_distance - r.distance) * r.offset.y,
        ),
        f > 0 ==> separation_delta(seq![r], min_distance, f).0 * r.offset.x <= 0,
        f > 0 ==> separation_delta(seq![r], min_distance, f).1 * r.offset.y <= 0,
        f > 0 && r.offset.x > 0 ==> separation_delta(seq![r], min_distance, f).0 < 0,
        f > 0 && r.offset.y > 0 ==> separation_delta(seq![r], min_distance, f).1 < 0,
{
    let v = seq![r];
    reveal_with_fuel(separation_push, 2);
    assert(v.drop_last() =~= Seq::<VisibleBoid>::empty());
    assert(v.last() == r);
    let k = min_distance - r.distance;
    assert(-r.offset.x * k == -k * r.offset.x && -r.offset.y * k == -k * r.offset.y) by (nonlinear_arith);
    if f > 0 {
        lemma_push_sign(r.offset.x as int, k, f);
        lemma_push_sign(r.offset.y as int, k, f);
    }
}

proof fn lemma_push_sign(o: int, k: int, f: int)
    requires
        k > 0,
        f > 0,
    ensures
        scaled(-k * o, f) * o <= 0,
        o > 0 ==> scaled(-k * o, f) < 0,
{
    let a = -k * o * f;
    assert(-k * o * f == a);
    vstd::arithmetic::div_mod::lemma_fundamental_div_mod(a, 1000);
    vstd::arithmetic::div_mod::lemma_mod_bound(a, 1000);
    let q = a / 1000;
    if o > 0 {
        assert(a < 0) by (nonlinear_arith)
            requires
                k > 0,
                f > 0,
                o > 0,
                a == -k * o * f,
        ;
        assert(q < 0);
        assert(q * o <= 0) by (nonlinear_arith)
            requires
                q < 0,
                o > 0,
        ;
    } else if o < 0 {
        assert(a > 0) by (nonlinear_arith)
            requires
                k > 0,
                f > 0,
                o < 0,
                a == -k * o * f,
        ;
        assert(q >= 0);
        assert(q * o <= 0) by (nonlinear_arith)
            requires
                q >= 0,
                o < 0,
        ;
    }
}

} // verus!
