//! The neighbour view of a boid: the other boids within its visible range.
use vstd::prelude::*;
use crate::boid::{Boid, population_wf};
use crate::vector::{Vector2D, COORD_LIMIT, int_sqrt, norm_sq};

verus! {

/// Offset of boid `j` seen from boid `s`.
pub open spec fn offset_between(boids: Seq<Boid>, s: int, j: int) -> (int, int) {
    (
        boids[j].position.x - boids[s].position.x,
        boids[j].position.y - boids[s].position.y,
    )
}

/// Boid `s` sees boid `j`: another boid at distance at most `range`.
pub open spec fn sees(boids: Seq<Boid>, s: int, j: int, range: int) -> bool {
    let (dx, dy) = offset_between(boids, s, j);
    j != s && norm_sq(dx, dy) <= range * range
}

/// Indices among the first `k` boids that boid `s` sees, in population order.
pub open spec fn visible_indices(boids: Seq<Boid>, s: int, range: int, k: int) -> Seq<int>
    decreases k,
{
    if k <= 0 {
        Seq::empty()
    } else if sees(boids, s, k - 1, range) {
        visible_indices(boids, s, range, k - 1).push(k - 1)
    } else {
        visible_indices(boids, s, range, k - 1)
    }
}

/// A neighbour of a subject boid: its index, its offset from the subject and
/// the distance rounded down.
#[derive(Clone, Copy, Debug, PartialEq, Eq, Structural)]
pub struct VisibleBoid {
    pub index: usize,
    pub offset: Vector2D,
    pub distance: u64,
}

impl VisibleBoid {
    /// The offset is that of two bounded points, the distance its rounded-down length.
    pub open spec fn wf(self) -> bool {
        &&& -2 * COORD_LIMIT <= self.offset.x <= 2 * COORD_LIMIT
        &&& -2 * COORD_LIMIT <= self.offset.y <= 2 * COORD_LIMIT
        &&& self.distance == int_sqrt(self.offset.norm_sq())
    }
}

/// `view` is the neighbour view of boid `s`: the boids it sees, in order, each
/// with its offset and distance.
pub open spec fn is_view(boids: Seq<Boid>, s: int, range: int, view: Seq<VisibleBoid>) -> bool {
    let idx = visible_indices(boids, s, range, boids.len() as int);
    &&& view.len() == idx.len()
    &&& forall|i: int| 0 <= i < view.len() ==> {
        &&& (#[trigger] view[i]).index == idx[i]
        &&& (view[i].offset.x as int, view[i].offset.y as int) == offset_between(boids, s, idx[i])
        &&& view[i].wf()
    }
}

/// The neighbour record of boid `j` seen from boid `s`.
pub open spec fn record_of(boids: Seq<Boid>, s: int, j: int) -> VisibleBoid {
    let (dx, dy) = offset_between(boids, s, j);
    VisibleBoid {
        index: j as usize,
        offset: Vector2D { x: dx as i64, y: dy as i64 },
        distance: int_sqrt(norm_sq(dx, dy)) as u64,
    }
}

/// The neighbour view of boid `s`, as a sequence of records.
pub open spec fn view_of(boids: Seq<Boid>, s: int, range: int) -> Seq<VisibleBoid> {
    visible_indices(boids, s, range, boids.len() as int).map_values(|j: int| record_of(boids, s, j))
}

/// Each index that `visible_indices` lists is below `k`.
pub proof fn lemma_visible_indices_below(boids: Seq<Boid>, s: int, range: int, k: int)
    ensures
        visible_indices(boids, s, range, k).len() <= if k < 0 { 0 } else { k },
        forall|i: int|
            0 <= i < visible_indices(boids, s, range, k).len() ==> 0 <= #[trigger] visible_indices(
                boids,
                s,
                range,
                k,
            )[i] < k,
    decreases k,
{
    if k > 0 {
        lemma_visible_indices_below(boids, s, range, k - 1);
    }
}

/// The neighbour view holds exactly the other boids within the visible range.
pub proof fn lemma_view_exact(boids: Seq<Boid>, s: int, range: int, k: int)
    requires
        0 <= k,
    ensures
        forall|j: int|
            0 <= j < k ==> (visible_indices(boids, s, range, k).contains(j) <==> sees(
                boids,
                s,
                j,
                range,
            )),
        forall|j: int| visible_indices(boids, s, range, k).contains(j) ==> 0 <= j < k,
    decreases k,
{
    lemma_visible_indices_below(boids, s, range, k);
    if k > 0 {
        lemma_view_exact(boids, s, range, k - 1);
        let prev = visible_indices(boids, s, range, k - 1);
        let cur = visible_indices(boids, s, range, k);
        if sees(boids, s, k - 1, range) {
            assert(cur[cur.len() - 1] == k - 1);
            assert forall|j: int| cur.contains(j) implies (j == k - 1 || prev.contains(j)) by {
                let t = choose|t: int| 0 <= t < cur.len() && cur[t] == j;
                if t < prev.len() {
                    assert(prev[t] == j);
                }
            }
            assert forall|j: int| prev.contains(j) implies cur.contains(j) by {
                let t = choose|t: int| 0 <= t < prev.len() && prev[t] == j;
                assert(cur[t] == j);
            }
        }
    }
}

/// The neighbour view of boid `index`: every other boid whose distance from it
/// is at most `visible_range`, in population order.
pub fn visible_boids(boids: &Vec<Boid>, index: usize, visible_range: i64) -> (r: Vec<VisibleBoid>)
    requires
        population_wf(boids@),
        index < boids.len(),
        0 <= visible_range <= crate::settings::RANGE_LIMIT,
    ensures
        is_view(boids@, index as int, visible_range as int, r@),
        r@ == view_of(boids@, index as int, visible_range as int),
{
    let subject = boids[index].position;
    assert(visible_range * visible_range <= 0x100_0000_0000int) by (nonlinear_arith)
        requires
            0 <= visible_range <= 0x10_0000,
    ;
    let range_sq: u128 = (visible_range as u128) * (visible_range as u128);
    let mut r: Vec<VisibleBoid> = Vec::new();
    let mut j: usize = 0;
    while j < boids.len()
        invariant
            population_wf(boids@),
            index < boids.len(),
            subject == boids@[index as int].position,
            range_sq == visible_range * visible_range,
            j <= boids.len(),
            r@.len() == visible_indices(boids@, index as int, visible_range as int, j as int).len(),
            forall|i: int| 0 <= i < r@.len() ==> {
                let idx = visible_indices(boids@, index as int, visible_range as int, j as int);
                &&& (#[trigger] r@[i]).index == idx[i]
                &&& (r@[i].offset.x as int, r@[i].offset.y as int) == offset_between(boids@, index as int, idx[i])
                &&& r@[i].wf()
            },
        decreases boids.len() - j,
    {
        let other = boids[j].position;
        assert(boids@[j as int].wf() && boids@[index as int].wf());
        let offset = Vector2D::new(other.x - subject.x, other.y - subject.y);
        let dx = offset.x as i128;
        let dy = offset.y as i128;
        assert(0 <= dx * dx <= 0x4000_0000_0000_0000int && 0 <= dy * dy <= 0x4000_0000_0000_0000int)
            by (nonlinear_arith)
            requires
                -0x8000_0000 <= dx <= 0x8000_0000,
                -0x8000_0000 <= dy <= 0x8000_0000,
        ;
        let n: u128 = (dx * dx + dy * dy) as u128;
        if j != index && n <= range_sq {
            let distance = crate::vector::floor_sqrt(n);
            assert(distance < 0x1_0000_0000) by (nonlinear_arith)
                requires
                    distance * distance <= n,
                    n <= 0x8000_0000_0000_0000int,
            ;
            r.push(VisibleBoid { index: j, offset, distance: distance as u64 });
        }
        j = j + 1;
    }
    proof {
        lemma_visible_indices_below(boids@, index as int, visible_range as int, boids.len() as int);
        assert(r@ =~= view_of(boids@, index as int, visible_range as int));
    }
    r
}

/// The neighbour view of a boid lists neither the boid itself nor any boid
/// farther than the visible range, and lists every other boid within it.
pub proof fn lemma_neighbour_view(boids: Seq<Boid>, s: int, range: int, view: Seq<VisibleBoid>)
    requires
        is_view(boids, s, range, view),
    ensures
        forall|i: int|
            0 <= i < view.len() ==> (#[trigger] view[i]).index != s && view[i].offset.norm_sq()
                <= range * range,
        forall|j: int|
            0 <= j < boids.len() && j != s && norm_sq(
                offset_between(boids, s, j).0,
                offset_between(boids, s, j).1,
            ) <= range * range ==> exists|i: int| 0 <= i < view.len() && #[trigger] view[i].index == j,
{
    let n = boids.len() as int;
    let idx = visible_indices(boids, s, range, n);
    lemma_view_exact(boids, s, range, n);
    lemma_visible_indices_below(boids, s, range, n);
    assert forall|i: int| 0 <= i < view.len() implies (#[trigger] view[i]).index != s
        && view[i].offset.norm_sq() <= range * range by {
        let j = idx[i];
        assert(0 <= j < n);
        assert(idx.contains(j));
        assert(sees(boids, s, j, range));
        assert((view[i].offset.x as int, view[i].offset.y as int) == offset_between(boids, s, j));
    }
    assert forall|j: int|
        0 <= j < boids.len() && j != s && norm_sq(
            offset_between(boids, s, j).0,
            offset_between(boids, s, j).1,
        ) <= range * range implies exists|i: int| 0 <= i < view.len() && #[trigger] view[i].index == j by {
        assert(sees(boids, s, j, range));
        assert(idx.contains(j));
        let t = choose|t: int| 0 <= t < idx.len() && idx[t] == j;
        assert(view[t].index == j);
    }
}

} // verus!
