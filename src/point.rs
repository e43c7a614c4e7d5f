//! Points of the plane, with fixed-point integer coordinates.
use vstd::prelude::*;

verus! {

/// Ticks in one unit of length.
pub const UNIT: i64 = 1_000_000;

/// Largest magnitude of a coordinate or radius that the library accepts, in ticks.
pub const COORD_LIMIT: i64 = 10_000_000_000;

/// A point of the plane, in ticks.
#[derive(Clone, Copy, Debug, PartialEq, Eq, Structural)]
pub struct Point {
    pub x: i64,
    pub y: i64,
}

/// `v` is small enough to be a coordinate or radius.
pub open spec fn in_limit(v: int) -> bool {
    -COORD_LIMIT <= v <= COORD_LIMIT
}

/// Squared Euclidean distance between two points.
pub open spec fn dist2(p: Point, q: Point) -> int {
    (p.x - q.x) * (p.x - q.x) + (p.y - q.y) * (p.y - q.y)
}

/// Squared distance of a point from the origin.
pub open spec fn norm2(p: Point) -> int {
    p.x * p.x + p.y * p.y
}

impl Point {
    /// Both coordinates lie within [`COORD_LIMIT`].
    pub open spec fn wf(self) -> bool {
        in_limit(self.x as int) && in_limit(self.y as int)
    }

    /// The origin.
    pub fn empty() -> (p: Point)
        ensures
            p.x == 0 && p.y == 0,
    {
        Point { x: 0, y: 0 }
    }
}

/// Bounds a square: `|a| <= m` gives `a * a <= m * m`.
pub proof fn lemma_square_bound(a: int, m: int)
    requires
        -m <= a <= m,
    ensures
        0 <= a * a <= m * m,
{
    assert(0 <= a * a <= m * m) by (nonlinear_arith)
        requires
            -m <= a <= m,
    ;
}

/// Squared distance of two points within the limit, and the exact i128 computation of it.
pub fn squared_distance(p: &Point, q: &Point) -> (r: i128)
    requires
        p.wf(),
        q.wf(),
    ensures
        r == dist2(*p, *q),
        0 <= r <= 8 * COORD_LIMIT * COORD_LIMIT,
{
    let dx = p.x as i128 - q.x as i128;
    let dy = p.y as i128 - q.y as i128;
    proof {
        lemma_square_bound(dx as int, 2 * COORD_LIMIT);
        lemma_square_bound(dy as int, 2 * COORD_LIMIT);
    }
    dx * dx + dy * dy
}

/// Squared distance of a point within the limit from the origin.
pub fn squared_norm(p: &Point) -> (r: i128)
    requires
        p.wf(),
    ensures
        r == norm2(*p),
        0 <= r <= 2 * COORD_LIMIT * COORD_LIMIT,
{
    proof {
        lemma_square_bound(p.x as int, COORD_LIMIT as int);
        lemma_square_bound(p.y as int, COORD_LIMIT as int);
    }
    p.x as i128 * p.x as i128 + p.y as i128 * p.y as i128
}

} // verus!
