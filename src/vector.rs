//! Two-dimensional integer vectors and the arithmetic the flocking rules use.
use vstd::prelude::*;
use vstd::arithmetic::div_mod::lemma_fundamental_div_mod_converse_div;

verus! {

/// Largest absolute coordinate of a vector that the rules take as input.
pub const COORD_LIMIT: i64 = 1073741824;

/// A vector (or point) on the integer plane.
#[derive(Clone, Copy, Debug, PartialEq, Eq, Structural)]
pub struct Vector2D {
    pub x: i64,
    pub y: i64,
}

/// Squared Euclidean norm of the vector with components `x`, `y`.
pub open spec fn norm_sq(x: int, y: int) -> int {
    x * x + y * y
}

/// `r` is the integer square root of `n`, rounded down.
pub open spec fn is_floor_sqrt(n: int, r: int) -> bool {
    0 <= r && r * r <= n && n < (r + 1) * (r + 1)
}

/// The integer square root of `n`, rounded down.
pub open spec fn int_sqrt(n: int) -> int {
    choose|r: int| is_floor_sqrt(n, r)
}

/// The rounded-down square root is unique, so `int_sqrt` names it.
pub proof fn lemma_int_sqrt_unique(n: int, r: int)
    requires
        is_floor_sqrt(n, r),
    ensures
        int_sqrt(n) == r,
{
    let s = int_sqrt(n);
    assert(is_floor_sqrt(n, s));
    if s < r {
        assert((s + 1) * (s + 1) <= r * r) by (nonlinear_arith)
            requires
                0 <= s < r,
        ;
    } else if r < s {
        assert((r + 1) * (r + 1) <= s * s) by (nonlinear_arith)
            requires
                0 <= r < s,
        ;
    }
}

/// Every non-negative integer has a rounded-down square root.
pub proof fn lemma_sqrt_exists(n: int)
    requires
        0 <= n,
    ensures
        is_floor_sqrt(n, int_sqrt(n)),
    decreases n,
{
    if n == 0 {
        assert(is_floor_sqrt(0, 0));
    } else {
        lemma_sqrt_exists(n - 1);
        let r = int_sqrt(n - 1);
        if (r + 1) * (r + 1) <= n {
            assert(n < (r + 2) * (r + 2)) by (nonlinear_arith)
                requires
                    n - 1 < (r + 1) * (r + 1),
                    r >= 0,
            ;
            assert(is_floor_sqrt(n, r + 1));
        } else {
            assert(is_floor_sqrt(n, r));
        }
    }
}

/// Both components lie within `COORD_LIMIT`.
pub open spec fn in_limit(v: int) -> bool {
    -COORD_LIMIT <= v <= COORD_LIMIT
}

/// Integer square root of `n`, rounded down.
pub fn floor_sqrt(n: u128) -> (r: u128)
    ensures
        is_floor_sqrt(n as int, r as int),
        r == int_sqrt(n as int),
{
    let mut lo: u128 = 0;
    let mut hi: u128 = 0x1_0000_0000_0000_0000;
    assert(n < hi * hi) by (nonlinear_arith)
        requires
            hi == 0x1_0000_0000_0000_0000u128,
            n <= u128::MAX,
    ;
    while hi - lo > 1
        invariant
            lo < hi <= 0x1_0000_0000_0000_0000u128,
            lo * lo <= n,
            n < hi * hi,
        decreases hi - lo,
    {
        let mid: u128 = lo + (hi - lo) / 2;
        assert(mid * mid < 0x1_0000_0000_0000_0000_0000_0000_0000_0000int) by (nonlinear_arith)
            requires
                mid < 0x1_0000_0000_0000_0000u128,
        ;
        if mid * mid <= n {
            lo = mid;
        } else {
            hi = mid;
        }
    }
    assert(hi == lo + 1);
    proof {
        lemma_int_sqrt_unique(n as int, lo as int);
    }
    lo
}

/// Largest weight that `weighted_mean` accepts for one item.
pub const WEIGHT_LIMIT: u64 = 1099511627776;

/// Largest number of items that `weighted_mean` accepts.
pub const ITEM_LIMIT: usize = 1048576;

/// Sum of the weights of `s`.
pub open spec fn weight_sum(s: Seq<(Vector2D, u64)>) -> int
    decreases s.len(),
{
    if s.len() == 0 {
        0
    } else {
        weight_sum(s.drop_last()) + s.last().1
    }
}

/// Sum of `weight * x` over `s`.
pub open spec fn weighted_x(s: Seq<(Vector2D, u64)>) -> int
    decreases s.len(),
{
    if s.len() == 0 {
        0
    } else {
        weighted_x(s.drop_last()) + s.last().1 * s.last().0.x
    }
}

/// Sum of `weight * y` over `s`.
pub open spec fn weighted_y(s: Seq<(Vector2D, u64)>) -> int
    decreases s.len(),
{
    if s.len() == 0 {
        0
    } else {
        weighted_y(s.drop_last()) + s.last().1 * s.last().0.y
    }
}

/// The inputs that `weighted_mean` accepts: bounded vectors, bounded weights,
/// and not too many items.
pub open spec fn mean_input(s: Seq<(Vector2D, u64)>) -> bool {
    &&& s.len() <= ITEM_LIMIT
    &&& forall|i: int| 0 <= i < s.len() ==> (#[trigger] s[i]).0.bounded() && s[i].1 <= WEIGHT_LIMIT
}

/// The weight-normalized mean of `s`, rounded down in each component, or
/// `None` when the weights sum to zero (in particular when `s` is empty).
pub open spec fn mean_of(s: Seq<(Vector2D, u64)>) -> Option<(int, int)> {
    if weight_sum(s) == 0 {
        None
    } else {
        Some((weighted_x(s) / weight_sum(s), weighted_y(s) / weight_sum(s)))
    }
}

/// The mean of no items, or of items whose weights sum to zero, is absent.
pub proof fn lemma_mean_absent(s: Seq<(Vector2D, u64)>)
    requires
        s.len() == 0 || weight_sum(s) == 0,
    ensures
        mean_of(s).is_none(),
{
}

/// The mean of one vector of weight one is that vector.
pub proof fn lemma_mean_single(v: Vector2D)
    ensures
        mean_of(seq![(v, 1u64)]) == Some((v.x as int, v.y as int)),
{
    let s = seq![(v, 1u64)];
    reveal_with_fuel(weight_sum, 2);
    reveal_with_fuel(weighted_x, 2);
    reveal_with_fuel(weighted_y, 2);
    assert(s.drop_last() =~= Seq::<(Vector2D, u64)>::empty());
    assert(s.last() == (v, 1u64));
    assert(weight_sum(s) == 1);
    assert(weighted_x(s) == v.x && weighted_y(s) == v.y);
    lemma_fundamental_div_mod_converse_div(v.x as int, 1, v.x as int, 0);
    lemma_fundamental_div_mod_converse_div(v.y as int, 1, v.y as int, 0);
}

/// The mean of two vectors of one equal positive weight is their midpoint,
/// rounded down.
pub proof fn lemma_mean_midpoint(a: Vector2D, b: Vector2D, w: u64)
    requires
        w > 0,
    ensures
        mean_of(seq![(a, w), (b, w)]) == Some(
            ((a.x + b.x) / 2, (a.y + b.y) / 2),
        ),
{
    let s = seq![(a, w), (b, w)];
    reveal_with_fuel(weight_sum, 3);
    reveal_with_fuel(weighted_x, 3);
    reveal_with_fuel(weighted_y, 3);
    assert(s.drop_last() =~= seq![(a, w)]);
    assert(s.drop_last().drop_last() =~= Seq::<(Vector2D, u64)>::empty());
    assert(s.last() == (b, w) && s.drop_last().last() == (a, w));
    assert(weight_sum(s) == 2 * w);
    assert(weighted_x(s) == w * a.x + w * b.x);
    assert(weighted_y(s) == w * a.y + w * b.y);
    assert(w * a.x + w * b.x == w * (a.x + b.x) && w * a.y + w * b.y == w * (a.y + b.y))
        by (nonlinear_arith);
    lemma_half_of_multiple(a.x + b.x, w as int);
    lemma_half_of_multiple(a.y + b.y, w as int);
}

proof fn lemma_half_of_multiple(t: int, w: int)
    requires
        w > 0,
    ensures
        (w * t) / (2 * w) == t / 2,
{
    vstd::arithmetic::div_mod::lemma_fundamental_div_mod(t, 2);
    let q = t / 2;
    let r = t % 2;
    assert(0 <= r < 2);
    assert(w * t == q * (2 * w) + r * w && 0 <= r * w < 2 * w) by (nonlinear_arith)
        requires
            t == 2 * q + r,
            0 <= r < 2,
            w > 0,
    ;
    lemma_fundamental_div_mod_converse_div(w * t, 2 * w, q, r * w);
}

/// Weighted sums of bounded vectors stay within the weight sum times the bound.
pub proof fn lemma_weighted_sums_bounded(s: Seq<(Vector2D, u64)>)
    requires
        forall|i: int| 0 <= i < s.len() ==> (#[trigger] s[i]).0.bounded(),
    ensures
        0 <= weight_sum(s),
        -COORD_LIMIT * weight_sum(s) <= weighted_x(s) <= COORD_LIMIT * weight_sum(s),
        -COORD_LIMIT * weight_sum(s) <= weighted_y(s) <= COORD_LIMIT * weight_sum(s),
    decreases s.len(),
{
    if s.len() > 0 {
        let t = s.drop_last();
        assert forall|i: int| 0 <= i < t.len() implies (#[trigger] t[i]).0.bounded() by {
            assert(t[i] == s[i]);
        }
        lemma_weighted_sums_bounded(t);
        let (v, w) = s.last();
        assert(s.last() == s[s.len() - 1]);
        let (cx, cy) = (v.x as int, v.y as int);
        assert(-COORD_LIMIT * w <= w * cx <= COORD_LIMIT * w) by (nonlinear_arith)
            requires
                -COORD_LIMIT <= cx <= COORD_LIMIT,
                0 <= w,
        ;
        assert(-COORD_LIMIT * w <= w * cy <= COORD_LIMIT * w) by (nonlinear_arith)
            requires
                -COORD_LIMIT <= cy <= COORD_LIMIT,
                0 <= w,
        ;
        assert(COORD_LIMIT * weight_sum(s) == COORD_LIMIT * weight_sum(t) + COORD_LIMIT * w)
            by (nonlinear_arith)
            requires
                weight_sum(s) == weight_sum(t) + w,
        ;
    }
}

/// A floored quotient of a value within `[-c * w, c * w]` by `w` lies in `[-c, c]`.
pub proof fn lemma_quotient_bounded(a: int, w: int, c: int)
    requires
        w > 0,
        c >= 0,
        -c * w <= a <= c * w,
    ensures
        -c <= a / w <= c,
{
    let q = a / w;
    vstd::arithmetic::div_mod::lemma_fundamental_div_mod(a, w);
    assert(0 <= a % w < w) by {
        vstd::arithmetic::div_mod::lemma_mod_bound(a, w);
    }
    assert(-c <= q <= c) by (nonlinear_arith)
        requires
            a == w * q + a % w,
            0 <= a % w < w,
            w > 0,
            -c * w <= a <= c * w,
    ;
}

/// Floored quotient of `a` by a positive `b`.
pub fn floor_div(a: i128, b: i128) -> (r: i128)
    requires
        b > 0,
    ensures
        r == a / b,
{
    if a >= 0 {
        let q = (a as u128 / b as u128) as i128;
        q
    } else {
        let n: u128 = (-(a + 1)) as u128;
        let q: u128 = n / b as u128;
        let m: u128 = n % b as u128;
        proof {
            vstd::arithmetic::div_mod::lemma_fundamental_div_mod(n as int, b as int);
            assert(q <= n);
            assert(a == (-(q as int) - 1) * b + (b - 1 - m)) by (nonlinear_arith)
                requires
                    n == b * q + m,
                    n == -(a + 1),
            ;
            lemma_fundamental_div_mod_converse_div(a as int, b as int, -(q as int) - 1, b - 1 - m);
        }
        -(q as i128) - 1
    }
}

/// The weight-normalized mean of `items`, rounded down per component, or
/// `None` when no weight is present.
pub fn weighted_mean(items: &Vec<(Vector2D, u64)>) -> (r: Option<Vector2D>)
    requires
        mean_input(items@),
    ensures
        r.is_none() <==> mean_of(items@).is_none(),
        r matches Some(v) ==> mean_of(items@) == Some((v.x as int, v.y as int)) && v.bounded(),
{
    let mut w: i128 = 0;
    let mut sx: i128 = 0;
    let mut sy: i128 = 0;
    let mut i: usize = 0;
    while i < items.len()
        invariant
            mean_input(items@),
            i <= items.len(),
            w == weight_sum(items@.take(i as int)),
            sx == weighted_x(items@.take(i as int)),
            sy == weighted_y(items@.take(i as int)),
            0 <= w <= i * WEIGHT_LIMIT,
            -(i * WEIGHT_LIMIT * COORD_LIMIT) <= sx <= i * WEIGHT_LIMIT * COORD_LIMIT,
            -(i * WEIGHT_LIMIT * COORD_LIMIT) <= sy <= i * WEIGHT_LIMIT * COORD_LIMIT,
        decreases items.len() - i,
    {
        let (v, wi) = items[i];
        assert(items@.take(i + 1).drop_last() == items@.take(i as int));
        assert(items@[i as int].0.bounded() && items@[i as int].1 <= WEIGHT_LIMIT);
        assert(-(WEIGHT_LIMIT * COORD_LIMIT) <= wi * v.x <= WEIGHT_LIMIT * COORD_LIMIT
            && -(WEIGHT_LIMIT * COORD_LIMIT) <= wi * v.y <= WEIGHT_LIMIT * COORD_LIMIT) by (nonlinear_arith)
            requires
                0 <= wi <= WEIGHT_LIMIT,
                -COORD_LIMIT <= v.x <= COORD_LIMIT,
                -COORD_LIMIT <= v.y <= COORD_LIMIT,
        ;
        let px = wi as i128 * v.x as i128;
        let py = wi as i128 * v.y as i128;
        assert((i + 1) * WEIGHT_LIMIT * COORD_LIMIT == i * WEIGHT_LIMIT * COORD_LIMIT
            + WEIGHT_LIMIT * COORD_LIMIT) by (nonlinear_arith);
        assert((i + 1) * WEIGHT_LIMIT == i * WEIGHT_LIMIT + WEIGHT_LIMIT) by (nonlinear_arith);
        assert(i * WEIGHT_LIMIT * COORD_LIMIT <= ITEM_LIMIT * WEIGHT_LIMIT * COORD_LIMIT)
            by (nonlinear_arith)
            requires
                i < ITEM_LIMIT,
        ;
        w = w + wi as i128;
        sx = sx + px;
        sy = sy + py;
        i = i + 1;
    }
    assert(items@.take(items.len() as int) == items@);
    if w == 0 {
        None
    } else {
        proof {
            lemma_weighted_sums_bounded(items@);
            lemma_quotient_bounded(sx as int, w as int, COORD_LIMIT as int);
            lemma_quotient_bounded(sy as int, w as int, COORD_LIMIT as int);
        }
        let mx = floor_div(sx, w);
        let my = floor_div(sy, w);
        Some(Vector2D { x: mx as i64, y: my as i64 })
    }
}

impl Vector2D {
    /// Every component lies within `COORD_LIMIT`.
    pub open spec fn bounded(self) -> bool {
        in_limit(self.x as int) && in_limit(self.y as int)
    }

    pub open spec fn norm_sq(self) -> int {
        norm_sq(self.x as int, self.y as int)
    }

    pub fn new(x: i64, y: i64) -> (r: Self)
        ensures
            r.x == x && r.y == y,
    {
        Vector2D { x, y }
    }

    /// Componentwise sum.
    pub fn add(self, o: Self) -> (r: Self)
        requires
            i64::MIN <= self.x + o.x <= i64::MAX,
            i64::MIN <= self.y + o.y <= i64::MAX,
        ensures
            r.x == self.x + o.x && r.y == self.y + o.y,
    {
        Vector2D { x: self.x + o.x, y: self.y + o.y }
    }

    /// Componentwise difference.
    pub fn sub(self, o: Self) -> (r: Self)
        requires
            i64::MIN <= self.x - o.x <= i64::MAX,
            i64::MIN <= self.y - o.y <= i64::MAX,
        ensures
            r.x == self.x - o.x && r.y == self.y - o.y,
    {
        Vector2D { x: self.x - o.x, y: self.y - o.y }
    }

    /// Multiplication by an integer scalar.
    pub fn scale(self, k: i64) -> (r: Self)
        requires
            i64::MIN <= self.x * k <= i64::MAX,
            i64::MIN <= self.y * k <= i64::MAX,
        ensures
            r.x == self.x * k && r.y == self.y * k,
    {
        Vector2D { x: self.x * k, y: self.y * k }
    }

    /// Squared Euclidean norm, exact.
    pub fn magnitude_squared(self) -> (r: u128)
        requires
            self.bounded(),
        ensures
            r == self.norm_sq(),
            r <= 0x8000_0000_0000_0000u128,
    {
        let x = self.x as i128;
        let y = self.y as i128;
        assert(x * x <= 0x1000_0000_0000_0000int && y * y <= 0x1000_0000_0000_0000int) by (nonlinear_arith)
            requires
                -0x4000_0000 <= x <= 0x4000_0000,
                -0x4000_0000 <= y <= 0x4000_0000,
        ;
        assert(x * x >= 0 && y * y >= 0) by (nonlinear_arith);
        (x * x + y * y) as u128
    }

    /// Euclidean norm, rounded down to an integer.
    pub fn magnitude(self) -> (r: u64)
        requires
            self.bounded(),
        ensures
            is_floor_sqrt(self.norm_sq(), r as int),
            r == int_sqrt(self.norm_sq()),
    {
        let n = self.magnitude_squared();
        let r = floor_sqrt(n);
        assert(r < 0x1_0000_0000) by (nonlinear_arith)
            requires
                r * r <= n,
                n <= 0x8000_0000_0000_0000int,
        ;
        r as u64
    }
}

} // verus!
