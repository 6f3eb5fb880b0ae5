//! Points with integer coordinates and the dragon curve's merge step.
//!
//! Every turn the curve makes is a quarter turn, so a curve grown from a seed of
//! integer points keeps integer coordinates and every step is exact.
use vstd::prelude::*;

verus! {

/// Bound on the coordinates that a merge step takes: three times it still fits an `i64`.
pub const COORD_LIMIT: i64 = 0x2000_0000_0000_0000;

/// A point of the plane.
#[derive(Clone, Copy, Debug, PartialEq, Eq, Structural)]
pub struct Point {
    pub x: i64,
    pub y: i64,
}

/// Both coordinates of `p` lie in `[-b, b]`.
pub open spec fn point_within(p: Point, b: int) -> bool {
    -b <= p.x <= b && -b <= p.y <= b
}

/// Every point of `s` lies within `b`.
pub open spec fn within(s: Seq<Point>, b: int) -> bool {
    forall|i: int| 0 <= i < s.len() ==> #[trigger] point_within(s[i], b)
}

/// `p` turned by a quarter turn counter-clockwise about `c`:
/// `x' = cx - (py - cy)`, `y' = cy + (px - cx)`.
pub open spec fn quarter_turn(p: Point, c: Point) -> Point {
    Point { x: (c.x - (p.y - c.y)) as i64, y: (c.y + (p.x - c.x)) as i64 }
}

impl Point {
    pub fn new(x: i64, y: i64) -> (r: Point)
        ensures
            r.x == x,
            r.y == y,
    {
        Point { x, y }
    }

    /// This point turned a quarter turn counter-clockwise about `center`.
    pub fn rotate_quarter_around(&self, center: Point) -> (r: Point)
        requires
            point_within(*self, COORD_LIMIT as int),
            point_within(center, COORD_LIMIT as int),
        ensures
            r == quarter_turn(*self, center),
            r.x == center.x - (self.y - center.y),
            r.y == center.y + (self.x - center.x),
    {
        Point { x: center.x - (self.y - center.y), y: center.y + (self.x - center.x) }
    }
}

/// The points of `p` but the last, last first: the part of the curve that a
/// merge step copies and turns about the end point.
pub open spec fn reversed_body(p: Seq<Point>) -> Seq<Point> {
    if p.len() < 2 {
        Seq::empty()
    } else {
        Seq::new((p.len() - 1) as nat, |k: int| p[p.len() - 2 - k])
    }
}

/// One merge step: `p` followed by its reversed body turned a quarter turn about
/// the last point; a sequence of fewer than two points stays as it is.
pub open spec fn next_curve(p: Seq<Point>) -> Seq<Point> {
    if p.len() < 2 {
        p
    } else {
        p + reversed_body(p).map_values(|q: Point| quarter_turn(q, p.last()))
    }
}

/// The points of `points` but the last, in reverse order; empty when there are
/// fewer than two points.
pub fn reversed_body_of(points: &Vec<Point>) -> (r: Vec<Point>)
    ensures
        r@ == reversed_body(points@),
        points@.len() >= 2 ==> r@.len() == points@.len() - 1,
        points@.len() < 2 ==> r@.len() == 0,
{
    let n = points.len();
    let mut r: Vec<Point> = Vec::new();
    if n < 2 {
        return r;
    }
    let mut k: usize = 0;
    while k < n - 1
        invariant
            n == points@.len(),
            n >= 2,
            k <= n - 1,
            r@ == reversed_body(points@).subrange(0, k as int),
        decreases n - 1 - k,
    {
        r.push(points[n - 2 - k]);
        k = k + 1;
        assert(r@ =~= reversed_body(points@).subrange(0, k as int));
    }
    assert(r@ =~= reversed_body(points@));
    r
}

/// A copy of `points`.
pub fn copy_points(points: &Vec<Point>) -> (r: Vec<Point>)
    ensures
        r@ == points@,
{
    let n = points.len();
    let mut r: Vec<Point> = Vec::new();
    let mut i: usize = 0;
    while i < n
        invariant
            n == points@.len(),
            i <= n,
            r@ == points@.subrange(0, i as int),
        decreases n - i,
    {
        r.push(points[i]);
        i = i + 1;
        assert(r@ =~= points@.subrange(0, i as int));
    }
    assert(r@ =~= points@);
    r
}

/// The next iteration of the dragon curve: the points unchanged, then every
/// point but the last, in reverse order, turned a quarter turn counter-clockwise
/// about the last point. Fewer than two points are returned unchanged.
pub fn next_iteration(points: &Vec<Point>) -> (r: Vec<Point>)
    requires
        within(points@, COORD_LIMIT as int),
    ensures
        r@ == next_curve(points@),
        points@.len() >= 2 ==> r@.len() == 2 * points@.len() - 1,
        points@.len() < 2 ==> r@ == points@,
        r@.subrange(0, points@.len() as int) == points@,
{
    let n = points.len();
    let mut r = copy_points(points);
    if n < 2 {
        return r;
    }
    let end = points[n - 1];
    assert(point_within(points@[n - 1], COORD_LIMIT as int));
    let ghost turned = reversed_body(points@).map_values(|q: Point| quarter_turn(q, end));
    let mut k: usize = 0;
    while k < n - 1
        invariant
            n == points@.len(),
            n >= 2,
            k <= n - 1,
            end == points@.last(),
            within(points@, COORD_LIMIT as int),
            turned == reversed_body(points@).map_values(|q: Point| quarter_turn(q, end)),
            r@ == points@ + turned.subrange(0, k as int),
        decreases n - 1 - k,
    {
        assert(point_within(points@[n - 2 - k], COORD_LIMIT as int));
        let q = points[n - 2 - k].rotate_quarter_around(end);
        r.push(q);
        k = k + 1;
        assert(r@ =~= points@ + turned.subrange(0, k as int));
    }
    assert(turned.subrange(0, k as int) =~= turned);
    assert(r@.subrange(0, n as int) =~= points@);
    r
}

/// The seed of every dragon curve here: `(0, 0)` then `(1, 0)`.
pub open spec fn seed() -> Seq<Point> {
    seq![Point { x: 0, y: 0 }, Point { x: 1, y: 0 }]
}

/// The dragon curve after `n` merge steps from the seed.
pub open spec fn dragon(n: nat) -> Seq<Point>
    decreases n,
{
    if n == 0 {
        seed()
    } else {
        next_curve(dragon((n - 1) as nat))
    }
}

/// `3^n`: how far the coordinates of `dragon(n)` may reach at most.
pub open spec fn pow3(n: nat) -> int
    decreases n,
{
    if n == 0 {
        1
    } else {
        3 * pow3((n - 1) as nat)
    }
}

/// The deepest curve that `dragon_points` builds: its last merge step still
/// takes coordinates within `COORD_LIMIT`.
pub const MAX_DEPTH: u32 = 39;

/// `3^n` is at least one and grows with `n`.
pub proof fn lemma_pow3_monotonic(a: nat, b: nat)
    requires
        a <= b,
    ensures
        1 <= pow3(a) <= pow3(b),
    decreases b,
{
    if b > a {
        lemma_pow3_monotonic(a, (b - 1) as nat);
    } else if b > 0 {
        lemma_pow3_monotonic((a - 1) as nat, (b - 1) as nat);
    }
}

/// Below `MAX_DEPTH`, `3^n` stays within `COORD_LIMIT`.
pub proof fn lemma_pow3_fits(n: nat)
    requires
        n < MAX_DEPTH,
    ensures
        1 <= pow3(n) <= COORD_LIMIT,
{
    lemma_pow3_monotonic(n, 38);
    reveal_with_fuel(pow3, 39);
    assert(pow3(38) == 1350851717672992089);
}

/// A merge step at most triples how far the coordinates reach.
pub proof fn lemma_next_within(p: Seq<Point>, b: int)
    requires
        0 <= b <= COORD_LIMIT,
        within(p, b),
    ensures
        within(next_curve(p), 3 * b),
{
    if p.len() >= 2 {
        let q = next_curve(p);
        assert(point_within(p[p.len() - 1], b));
        assert forall|i: int| 0 <= i < q.len() implies #[trigger] point_within(q[i], 3 * b) by {
            if i >= p.len() {
                assert(point_within(p[p.len() - 2 - (i - p.len())], b));
            } else {
                assert(point_within(p[i], b));
            }
        }
    } else {
        lemma_within_weaken(p, b, 3 * b);
    }
}

/// The dragon curve after `n` steps has at least two points, and its
/// coordinates stay within `3^n`.
pub proof fn lemma_dragon_shape(n: nat)
    requires
        n <= MAX_DEPTH,
    ensures
        dragon(n).len() >= 2,
        within(dragon(n), pow3(n)),
    decreases n,
{
    if n == 0 {
        assert(point_within(seed()[0], 1));
        assert(point_within(seed()[1], 1));
    } else {
        let m = (n - 1) as nat;
        lemma_dragon_shape(m);
        lemma_pow3_fits(m);
        lemma_next_within(dragon(m), pow3(m));
    }
}

/// The points of the dragon curve after `depth` merge steps from the seed.
pub fn dragon_points(depth: u32) -> (r: Vec<Point>)
    requires
        depth <= MAX_DEPTH,
    ensures
        r@ == dragon(depth as nat),
{
    let mut r: Vec<Point> = vec![Point::new(0, 0), Point::new(1, 0)];
    assert(r@ =~= seed());
    let mut i: u32 = 0;
    while i < depth
        invariant
            i <= depth <= MAX_DEPTH,
            r@ == dragon(i as nat),
        decreases depth - i,
    {
        proof {
            lemma_dragon_shape(i as nat);
            lemma_pow3_fits(i as nat);
            lemma_within_weaken(r@, pow3(i as nat), COORD_LIMIT as int);
        }
        r = next_iteration(&r);
        i = i + 1;
    }
    r
}

/// Points within `a` are within any larger bound.
pub proof fn lemma_within_weaken(s: Seq<Point>, a: int, b: int)
    requires
        within(s, a),
        a <= b,
    ensures
        within(s, b),
{
    assert forall|i: int| 0 <= i < s.len() implies #[trigger] point_within(s[i], b) by {
        assert(point_within(s[i], a));
    }
}

} // verus!
