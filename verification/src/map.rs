//! The travelling-salesman data model: integer grid points, the floor of the
//! Euclidean distance between them, closed-tour length, and random maps of
//! distinct points.

use vstd::prelude::*;

use crate::EngineError;
use crate::rng::rand_index;

verus! {

/// The largest coordinate magnitude a point may carry, so that squared
/// distances and tour lengths always fit their machine integers.
pub const COORD_LIMIT: i64 = 1_000_000;

/// An upper bound (exclusive) on the floor-Euclidean distance of two
/// in-range points.
pub const MAX_DIST: u64 = 3_000_000;

/// A stop on the travel map: a point of the integer grid.
#[derive(Clone, Copy, Debug, PartialEq, Eq, Structural)]
pub struct Point {
    pub x: i64,
    pub y: i64,
}

impl Point {
    /// Coordinates small enough for all the engine's arithmetic.
    pub open spec fn in_range(self) -> bool {
        &&& -COORD_LIMIT <= self.x <= COORD_LIMIT
        &&& -COORD_LIMIT <= self.y <= COORD_LIMIT
    }
}

/// Every point of the sequence is in range.
pub open spec fn points_in_range(s: Seq<Point>) -> bool {
    forall|i: int| 0 <= i < s.len() ==> (#[trigger] s[i]).in_range()
}

/// The squared Euclidean distance between two points.
pub open spec fn sq_dist_spec(a: Point, b: Point) -> int {
    (a.x - b.x) * (a.x - b.x) + (a.y - b.y) * (a.y - b.y)
}

/// The squared Euclidean distance, computed exactly.
pub fn sq_dist(a: Point, b: Point) -> (r: u64)
    requires
        a.in_range(),
        b.in_range(),
    ensures
        r == sq_dist_spec(a, b),
{
    let dx = a.x - b.x;
    let dy = a.y - b.y;
    proof {
        assert(dx * dx <= 4_000_000_000_000 && dx * dx >= 0) by (nonlinear_arith)
            requires
                -2_000_000 <= dx <= 2_000_000;
        assert(dy * dy <= 4_000_000_000_000 && dy * dy >= 0) by (nonlinear_arith)
            requires
                -2_000_000 <= dy <= 2_000_000;
    }
    (dx * dx + dy * dy) as u64
}

/// The floor of the square root of a non-positive number is zero; above that
/// it grows by one exactly when the next perfect square is reached.
pub open spec fn sqrt_floor(x: int) -> int
    decreases x,
{
    if x <= 0 {
        0
    } else {
        let p = sqrt_floor(x - 1);
        if (p + 1) * (p + 1) <= x {
            p + 1
        } else {
            p
        }
    }
}

/// `sqrt_floor` is exactly the floor of the square root: it never overshoots
/// and the next integer always does.
pub proof fn lemma_sqrt_floor(x: int)
    requires
        x >= 0,
    ensures
        0 <= sqrt_floor(x),
        sqrt_floor(x) * sqrt_floor(x) <= x,
        x < (sqrt_floor(x) + 1) * (sqrt_floor(x) + 1),
    decreases x,
{
    if x > 0 {
        lemma_sqrt_floor(x - 1);
        let p = sqrt_floor(x - 1);
        if (p + 1) * (p + 1) <= x {
            assert(x == (p + 1) * (p + 1));
            assert((p + 1) * (p + 1) < (p + 2) * (p + 2)) by (nonlinear_arith)
                requires
                    p >= 0;
        }
    }
}

/// Any value squeezed between consecutive squares is the floor square root.
pub proof fn lemma_sqrt_floor_unique(x: int, r: int)
    requires
        x >= 0,
        r >= 0,
        r * r <= x,
        x < (r + 1) * (r + 1),
    ensures
        r == sqrt_floor(x),
{
    lemma_sqrt_floor(x);
    let s = sqrt_floor(x);
    if r < s {
        assert((r + 1) * (r + 1) <= s * s) by (nonlinear_arith)
            requires
                0 <= r,
                r + 1 <= s;
    }
    if r > s {
        assert((s + 1) * (s + 1) <= r * r) by (nonlinear_arith)
            requires
                0 <= s,
                s + 1 <= r;
    }
}

/// The floor of the square root, by binary search between consecutive
/// squares.
pub fn isqrt(x: u64) -> (r: u64)
    ensures
        r == sqrt_floor(x as int),
{
    if x == 0 {
        proof {
            lemma_sqrt_floor_unique(0, 0);
        }
        return 0;
    }
    let mut lo: u64 = 0;
    let mut hi: u64 = 0x1_0000_0000;
    while lo + 1 < hi
        invariant
            lo < hi <= 0x1_0000_0000,
            (lo as int) * (lo as int) <= x as int,
            (x as int) < (hi as int) * (hi as int),
        decreases hi - lo,
    {
        let mid = lo + (hi - lo) / 2;
        proof {
            let m = mid as int;
            assert(m * m < 0x1_0000_0000_0000_0000) by (nonlinear_arith)
                requires
                    0 <= m < 0x1_0000_0000;
        }
        if mid * mid <= x {
            lo = mid;
        } else {
            hi = mid;
        }
    }
    proof {
        lemma_sqrt_floor_unique(x as int, lo as int);
    }
    lo
}

/// The floor-Euclidean distance between two points: the engine's integer
/// stand-in for the straight-line distance, which orders paths the same way.
pub open spec fn dist_spec(a: Point, b: Point) -> int {
    sqrt_floor(sq_dist_spec(a, b))
}

/// The floor-Euclidean distance of two in-range points is below `MAX_DIST`.
pub proof fn lemma_dist_bound(a: Point, b: Point)
    requires
        a.in_range(),
        b.in_range(),
    ensures
        0 <= dist_spec(a, b) < MAX_DIST,
{
    let sq = sq_dist_spec(a, b);
    assert(0 <= sq <= 8_000_000_000_000) by (nonlinear_arith)
        requires
            -2_000_000 <= a.x - b.x <= 2_000_000,
            -2_000_000 <= a.y - b.y <= 2_000_000,
            sq == (a.x - b.x) * (a.x - b.x) + (a.y - b.y) * (a.y - b.y);
    lemma_sqrt_floor(sq);
    let s = sqrt_floor(sq);
    if s >= MAX_DIST {
        assert(s * s >= 9_000_000_000_000) by (nonlinear_arith)
            requires
                s >= 3_000_000;
    }
}

/// The floor-Euclidean distance, computed exactly.
pub fn dist(a: Point, b: Point) -> (r: u64)
    requires
        a.in_range(),
        b.in_range(),
    ensures
        r == dist_spec(a, b),
        r < MAX_DIST,
{
    proof {
        lemma_dist_bound(a, b);
    }
    isqrt(sq_dist(a, b))
}

/// Two distinct points are at least one apart.
pub proof fn lemma_dist_positive(a: Point, b: Point)
    requires
        a != b,
    ensures
        dist_spec(a, b) >= 1,
{
    let sq = sq_dist_spec(a, b);
    assert(sq >= 1) by (nonlinear_arith)
        requires
            sq == (a.x - b.x) * (a.x - b.x) + (a.y - b.y) * (a.y - b.y),
            a.x != b.x || a.y != b.y;
    lemma_sqrt_floor(sq);
    let s = sqrt_floor(sq);
    if s == 0 {
        assert((s + 1) * (s + 1) == 1) by (nonlinear_arith)
            requires
                s == 0;
    }
}

/// The length of the open path along the sequence: the sum of the
/// floor-Euclidean distances of consecutive points.
pub open spec fn path_len_spec(s: Seq<Point>) -> int
    decreases s.len(),
{
    if s.len() < 2 {
        0
    } else {
        path_len_spec(s.drop_last()) + dist_spec(s[s.len() - 2], s.last())
    }
}

/// The length of the closed tour along the sequence: the open path plus the
/// edge from the last point back to the first.
pub open spec fn tour_len_spec(s: Seq<Point>) -> int {
    if s.len() < 2 {
        0
    } else {
        path_len_spec(s) + dist_spec(s.last(), s[0])
    }
}

/// An open path's length is bounded by its edge count times `MAX_DIST`.
pub proof fn lemma_path_len_bound(s: Seq<Point>)
    requires
        points_in_range(s),
    ensures
        0 <= path_len_spec(s),
        s.len() >= 1 ==> path_len_spec(s) <= (s.len() - 1) * MAX_DIST,
    decreases s.len(),
{
    if s.len() >= 2 {
        assert(points_in_range(s.drop_last()));
        lemma_path_len_bound(s.drop_last());
        lemma_dist_bound(s[s.len() - 2], s.last());
        assert((s.len() - 2) * (MAX_DIST as int) + MAX_DIST as int == (s.len() - 1) * (
        MAX_DIST as int)) by (nonlinear_arith);
    }
}

} // verus!

verus! {

/// The length of the closed tour, computed exactly: the engine's cost for a
/// travelling-salesman candidate.  Lower is better; the score of the
/// candidate is its reciprocal, which the selection weights realise in fixed
/// point.
pub fn tour_length(t: &Vec<Point>) -> (r: u64)
    requires
        2 <= t@.len() <= 0x1_0000_0000,
        points_in_range(t@),
    ensures
        r == tour_len_spec(t@),
{
    let n = t.len();
    let mut sum: u64 = 0;
    let mut i: usize = 1;
    while i < n
        invariant
            1 <= i <= n,
            n == t@.len(),
            2 <= n <= 0x1_0000_0000,
            points_in_range(t@),
            sum == path_len_spec(t@.take(i as int)),
            sum <= (i - 1) * MAX_DIST,
        decreases n - i,
    {
        let d = dist(t[i - 1], t[i]);
        proof {
            assert(t@.take(i + 1).drop_last() =~= t@.take(i as int));
            assert((i - 1) * MAX_DIST as int + MAX_DIST as int == i * MAX_DIST as int)
                by (nonlinear_arith);
            let ii = i as int;
            assert(ii * MAX_DIST as int <= 0x1_0000_0000 * MAX_DIST as int) by (nonlinear_arith)
                requires
                    0 <= ii <= 0x1_0000_0000;
        }
        sum = sum + d;
        i = i + 1;
    }
    proof {
        assert(t@.take(n as int) =~= t@);
    }
    let closing = dist(t[n - 1], t[0]);
    sum + closing
}

/// Whether the sequence of points holds the given point.
pub fn contains_point(v: &Vec<Point>, p: Point) -> (r: bool)
    ensures
        r == v@.contains(p),
{
    let mut i: usize = 0;
    while i < v.len()
        invariant
            i <= v@.len(),
            forall|j: int| 0 <= j < i ==> v@[j] != p,
        decreases v@.len() - i,
    {
        if v[i] == p {
            proof {
                assert(v@[i as int] == p);
            }
            return true;
        }
        i = i + 1;
    }
    false
}

/// The travel map: an ordered sequence of stops.  The candidate solutions of
/// the travelling-salesman engine are permutations of one such map.
#[derive(Debug)]
pub struct Tour(pub Vec<Point>);

impl View for Tour {
    type V = Seq<Point>;

    open spec fn view(&self) -> Seq<Point> {
        self.0@
    }
}

/// A random map: `entities` distinct points drawn uniformly from the
/// `width` by `height` grid.  Draws that repeat an already chosen point are
/// discarded; the number of draws is bounded, and a deterministic failure is
/// reported if the budget runs out before enough distinct points were found.
pub fn random_map(width: u32, height: u32, entities: usize) -> (r: Result<Tour, EngineError>)
    requires
        1 <= width <= 1_000_000,
        1 <= height <= 1_000_000,
        entities <= 0x1000_0000,
    ensures
        match r {
            Ok(t) => {
                &&& t@.len() == entities
                &&& t@.no_duplicates()
                &&& points_in_range(t@)
                &&& forall|i: int|
                    0 <= i < t@.len() ==> 0 <= (#[trigger] t@[i]).x < width && 0 <= t@[i].y
                        < height
            },
            Err(e) => e == EngineError::MapSampleFailed,
        },
        entities == 0 ==> r is Ok,
{
    let mut pts: Vec<Point> = Vec::new();
    let budget: u64 = (entities as u64) * 64;
    let mut attempts: u64 = 0;
    while pts.len() < entities && attempts < budget
        invariant
            pts@.len() <= entities,
            pts@.no_duplicates(),
            points_in_range(pts@),
            1 <= width <= 1_000_000,
            1 <= height <= 1_000_000,
            attempts <= budget,
            forall|i: int|
                0 <= i < pts@.len() ==> 0 <= (#[trigger] pts@[i]).x < width && 0 <= pts@[i].y
                    < height,
        decreases budget - attempts,
    {
        let x = rand_index(width as usize);
        let y = rand_index(height as usize);
        let p = Point { x: x as i64, y: y as i64 };
        if !contains_point(&pts, p) {
            let ghost before = pts@;
            pts.push(p);
            proof {
                assert forall|i: int, j: int|
                    0 <= i < j < pts@.len() implies pts@[i] != pts@[j] by {
                    if j == before.len() {
                        assert(pts@[i] == before[i]);
                        if pts@[i] == p {
                            assert(before.contains(p));
                        }
                    }
                }
            }
        }
        attempts = attempts + 1;
    }
    if pts.len() == entities {
        Ok(Tour(pts))
    } else {
        Err(EngineError::MapSampleFailed)
    }
}

} // verus!

verus! {

/// A sequence with the multiset of an in-range sequence is itself in range.
pub proof fn lemma_multiset_eq_in_range(a: Seq<Point>, b: Seq<Point>)
    requires
        a.to_multiset() == b.to_multiset(),
        points_in_range(a),
    ensures
        points_in_range(b),
{
    crate::perm::lemma_multiset_eq_elements(a, b);
    assert forall|i: int| 0 <= i < b.len() implies (#[trigger] b[i]).in_range() by {
        assert(a.contains(b[i]));
        let j = choose|j: int| 0 <= j < a.len() && a[j] == b[i];
    }
}

} // verus!

verus! {

/// A closed tour over at least two distinct in-range points has positive
/// length, so its reciprocal score is meaningful.
pub proof fn lemma_tour_len_positive(s: Seq<Point>)
    requires
        2 <= s.len(),
        s.no_duplicates(),
        points_in_range(s),
    ensures
        tour_len_spec(s) >= 1,
{
    lemma_path_len_bound(s);
    assert(s[0] != s[s.len() - 1]);
    lemma_dist_positive(s.last(), s[0]);
}

} // verus!
