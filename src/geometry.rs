//! Tangency constructions: where a circle must go to touch one or two others.
use vstd::prelude::*;
use crate::arith::{div_floor, isqrt, lemma_div_bounds, is_isqrt};
use crate::point::{in_limit, lemma_square_bound, squared_distance, Point, COORD_LIMIT};

verus! {

/// The integer square root of a non-negative `v`: the `r` of [`is_isqrt`].
pub open spec fn sqrt_floor(v: int) -> int {
    choose|r: int| is_isqrt(v, r)
}

/// The integer square root is unique, so [`isqrt`] computes [`sqrt_floor`].
pub proof fn lemma_sqrt_floor(v: int, r: int)
    requires
        is_isqrt(v, r),
    ensures
        sqrt_floor(v) == r,
{
    let s = sqrt_floor(v);
    assert(is_isqrt(v, s));
    if s < r {
        assert((s + 1) * (s + 1) <= r * r) by (nonlinear_arith)
            requires
                0 <= s < r,
        ;
    } else if r < s {
        assert((r + 1) * (r + 1) <= s * s) by (nonlinear_arith)
            requires
                0 <= r < s,
        ;
    }
}

/// `base + num / d` as a point coordinate, when within the coordinate limit.
pub open spec fn offset_spec(base: int, num: int, d: int) -> Option<i64> {
    let v = base + num / d;
    if in_limit(v) {
        Some(v as i64)
    } else {
        None
    }
}

/// The fixed-point crossing points of the circle of radius `dc` around `c`
/// and the circle of radius `dq` around `q`. With `D = q - c`, `d` the integer
/// square root of `|D|^2`, `a = floor((dc^2 - dq^2 + |D|^2) / 2) / d` the
/// distance from `c` along `D` and `h` the integer square root of
/// `dc^2 - a^2` the distance across it, the points are
/// `c + (D a -/+ perp(D) h) / d`, with divisions rounded down. `None` when
/// `D = 0`, when `|a| > dc` or `h^2 <= 0`, or when a coordinate leaves the limit.
pub open spec fn crossing(c: Point, dc: int, q: Point, dq: int) -> Option<(Point, Point)> {
    let dx = q.x - c.x;
    let dy = q.y - c.y;
    let d2 = dx * dx + dy * dy;
    if d2 == 0 {
        None
    } else {
        let d = sqrt_floor(d2);
        let a = ((dc * dc - dq * dq + d2) / 2) / d;
        if a > dc || a < -dc || dc * dc - a * a <= 0 {
            None
        } else {
            let h = sqrt_floor(dc * dc - a * a);
            match (
                offset_spec(c.x as int, dx * a - dy * h, d),
                offset_spec(c.y as int, dy * a + dx * h, d),
                offset_spec(c.x as int, dx * a + dy * h, d),
                offset_spec(c.y as int, dy * a - dx * h, d),
            ) {
                (Some(x1), Some(y1), Some(x2), Some(y2)) => Some(
                    (Point { x: x1, y: y1 }, Point { x: x2, y: y2 }),
                ),
                _ => None,
            }
        }
    }
}

/// `base + floor(num / d)`, or `None` when that leaves the coordinate limit.
fn offset(base: i64, num: i128, d: i128) -> (r: Option<i64>)
    requires
        in_limit(base as int),
        -64 * COORD_LIMIT * COORD_LIMIT <= num <= 64 * COORD_LIMIT * COORD_LIMIT,
        d >= 1,
    ensures
        r == offset_spec(base as int, num as int, d as int),
{
    let bound: i128 = 64 * COORD_LIMIT as i128 * COORD_LIMIT as i128;
    assert(-bound * d <= num <= bound * d) by (nonlinear_arith)
        requires
            -bound <= num <= bound,
            d >= 1,
            bound >= 0,
    ;
    let q = div_floor(num, d);
    proof {
        lemma_div_bounds(num as int, d as int, -bound, bound as int);
    }
    let v = base as i128 + q;
    if v < -(COORD_LIMIT as i128) || v > COORD_LIMIT as i128 {
        None
    } else {
        Some(v as i64)
    }
}

/// The two points at distance `dc` from `c` and at distance `dq` from `q`,
/// computed in fixed point. `None` when the two circles around `c` and `q`
/// do not cross at two points, when `c == q`, or when a point would leave
/// the coordinate limit.
pub fn circle_intersections(c: Point, dc: i64, q: Point, dq: i64) -> (r: Option<(Point, Point)>)
    requires
        c.wf(),
        q.wf(),
        0 <= dc <= 4 * COORD_LIMIT,
        0 <= dq <= 4 * COORD_LIMIT,
    ensures
        r == crossing(c, dc as int, q, dq as int),
        r matches Some((a, b)) ==> a.wf() && b.wf(),
        c == q ==> r.is_none(),
{
    let dx: i128 = q.x as i128 - c.x as i128;
    let dy: i128 = q.y as i128 - c.y as i128;
    let d2 = squared_distance(&c, &q);
    assert(d2 == dx * dx + dy * dy) by (nonlinear_arith)
        requires
            d2 == (c.x - q.x) * (c.x - q.x) + (c.y - q.y) * (c.y - q.y),
            dx == q.x - c.x,
            dy == q.y - c.y,
    ;
    proof {
        if c == q {
            let zx: int = c.x - q.x;
            let zy: int = c.y - q.y;
            assert(zx * zx + zy * zy == 0) by (nonlinear_arith)
                requires
                    zx == 0,
                    zy == 0,
            ;
        }
    }
    if d2 == 0 {
        return None;
    }
    assert(8 * COORD_LIMIT * COORD_LIMIT < crate::arith::SQRT_INPUT_LIMIT);
    let d = isqrt(d2);
    proof {
        lemma_sqrt_floor(d2 as int, d as int);
    }
    assert(d >= 1) by (nonlinear_arith)
        requires
            is_isqrt(d2 as int, d as int),
            d2 >= 1,
    ;
    let big: i128 = 16 * COORD_LIMIT as i128 * COORD_LIMIT as i128;
    let dci: i128 = dc as i128;
    let dqi: i128 = dq as i128;
    assert(0 <= dci * dci <= big && 0 <= dqi * dqi <= big) by (nonlinear_arith)
        requires
            0 <= dci <= 4 * COORD_LIMIT,
            0 <= dqi <= 4 * COORD_LIMIT,
            big == 16 * COORD_LIMIT * COORD_LIMIT,
    ;
    let dc2: i128 = dci * dci;
    let k = div_floor(dc2 - dqi * dqi + d2, 2);
    assert(-big * d <= k <= big * d) by (nonlinear_arith)
        requires
            -big <= k <= big,
            d >= 1,
    ;
    let a = div_floor(k, d);
    proof {
        lemma_div_bounds(k as int, d as int, -big, big as int);
    }
    if a > dc as i128 || a < -(dc as i128) {
        return None;
    }
    proof {
        lemma_square_bound(a as int, dc as int);
    }
    let h2 = dc2 - a * a;
    if h2 <= 0 {
        return None;
    }
    let h = isqrt(h2);
    proof {
        lemma_sqrt_floor(h2 as int, h as int);
    }
    assert(0 <= h <= dc) by (nonlinear_arith)
        requires
            is_isqrt(h2 as int, h as int),
            h2 <= dc * dc,
            dc >= 0,
    ;
    assert(-8 * COORD_LIMIT * COORD_LIMIT <= dx * a <= 8 * COORD_LIMIT * COORD_LIMIT
        && -8 * COORD_LIMIT * COORD_LIMIT <= dy * a <= 8 * COORD_LIMIT * COORD_LIMIT
        && -8 * COORD_LIMIT * COORD_LIMIT <= dx * h <= 8 * COORD_LIMIT * COORD_LIMIT
        && -8 * COORD_LIMIT * COORD_LIMIT <= dy * h <= 8 * COORD_LIMIT * COORD_LIMIT)
        by (nonlinear_arith)
        requires
            -2 * COORD_LIMIT <= dx <= 2 * COORD_LIMIT,
            -2 * COORD_LIMIT <= dy <= 2 * COORD_LIMIT,
            -dc <= a <= dc,
            0 <= h <= dc,
            dc <= 4 * COORD_LIMIT,
    ;
    let x1 = offset(c.x, dx * a - dy * h, d);
    let y1 = offset(c.y, dy * a + dx * h, d);
    let x2 = offset(c.x, dx * a + dy * h, d);
    let y2 = offset(c.y, dy * a - dx * h, d);
    match (x1, y1, x2, y2) {
        (Some(x1), Some(y1), Some(x2), Some(y2)) => Some((Point { x: x1, y: y1 }, Point { x: x2, y: y2 })),
        _ => None,
    }
}

} // verus!
