//! The penalty objective and its subgradient.
use vstd::prelude::*;
use crate::point::{in_limit, lemma_square_bound, COORD_LIMIT, UNIT};
use crate::ralgo::utils::concat_gradients;

verus! {

/// Weight of a violated containment or non-overlap constraint.
pub const CONSTRAINT_WEIGHT: i128 = 2000;

/// Weight of an enclosing radius below the smallest circle, and the step that
/// each violated containment takes off the radius component of the gradient.
pub const RADIUS_WEIGHT: i128 = 1000;

/// Slack, in square ticks, added to every constraint so that touching counts
/// as a violation.
pub const PENALTY_EPS: i128 = 1;

/// Largest number of circles that the objective accepts.
pub const MAX_CIRCLES: usize = 100_000;

/// Bound on one pair term: `(2 L)^2 + 1`.
pub const PAIR_MAX: i128 = 400_000_000_000_000_000_001;

/// Bound on one containment term: `2 L^2 + 1`.
pub const BOUNDARY_MAX: i128 = 200_000_000_000_000_000_001;

/// Bound on the terms of one circle.
pub const ROW_MAX: i128 = 40_000_200_000_000_000_000_100_001;

/// `x` is a configuration of the circles with radii `rad`: `2n + 1` entries
/// within the coordinate limit, with `1 <= n <= MAX_CIRCLES` and positive radii.
pub open spec fn config_ok(x: Seq<i64>, rad: Seq<i64>) -> bool {
    &&& 1 <= rad.len() <= MAX_CIRCLES
    &&& x.len() == 2 * rad.len() + 1
    &&& forall|k: int| 0 <= k < x.len() ==> in_limit(#[trigger] x[k] as int)
    &&& forall|k: int| 0 <= k < rad.len() ==> 0 < #[trigger] rad[k] <= COORD_LIMIT
}

/// The enclosing radius of a configuration: its last entry.
pub open spec fn main_of(x: Seq<i64>) -> int {
    x[x.len() - 1] as int
}

/// `v` if positive, else zero.
pub open spec fn pos(v: int) -> int {
    if v > 0 {
        v
    } else {
        0
    }
}

/// How far circle `i` reaches out of the enclosing circle, in square ticks,
/// plus the slack: `cx^2 + cy^2 - (R - r)^2 + EPS`.
pub open spec fn boundary_excess(x: Seq<i64>, rad: Seq<i64>, i: int) -> int {
    let n = rad.len() as int;
    let room = main_of(x) - rad[i];
    x[i] * x[i] + x[n + i] * x[n + i] - room * room + PENALTY_EPS
}

/// How far circles `i` and `j` overlap, in square ticks, plus the slack:
/// `(ri + rj)^2 - |ci - cj|^2 + EPS`.
pub open spec fn pair_excess(x: Seq<i64>, rad: Seq<i64>, i: int, j: int) -> int {
    let n = rad.len() as int;
    let dx = x[i] - x[j];
    let dy = x[n + i] - x[n + j];
    let s = rad[i] + rad[j];
    -(dx * dx) - dy * dy + s * s + PENALTY_EPS
}

/// The positive pair excesses of circle `i` with circles `i + 1 .. j`.
pub open spec fn row_penalty(x: Seq<i64>, rad: Seq<i64>, i: int, j: int) -> int
    decreases j - i,
{
    if j <= i + 1 {
        0
    } else {
        row_penalty(x, rad, i, j - 1) + pos(pair_excess(x, rad, i, j - 1))
    }
}

/// The positive excesses of circles `0 .. i`: containment, and overlap with
/// every later circle.
pub open spec fn circles_penalty(x: Seq<i64>, rad: Seq<i64>, i: int) -> int
    decreases i,
{
    if i <= 0 {
        0
    } else {
        circles_penalty(x, rad, i - 1) + pos(boundary_excess(x, rad, i - 1)) + row_penalty(
            x,
            rad,
            i - 1,
            rad.len() as int,
        )
    }
}

/// The smallest of the first `k` radii (the first radius when `k <= 1`).
pub open spec fn min_radius(rad: Seq<i64>, k: int) -> int
    decreases k,
{
    if k <= 1 {
        rad[0] as int
    } else {
        let m = min_radius(rad, k - 1);
        if rad[k - 1] < m {
            rad[k - 1] as int
        } else {
            m
        }
    }
}

/// The penalty objective, scaled by `UNIT^2`: the enclosing radius, plus `CONSTRAINT_WEIGHT`
/// times every positive excess, plus `RADIUS_WEIGHT` times the amount by which the
/// enclosing radius falls short of the smallest radius.
pub open spec fn penalty(x: Seq<i64>, rad: Seq<i64>) -> int {
    let n = rad.len() as int;
    main_of(x) * UNIT + CONSTRAINT_WEIGHT * circles_penalty(x, rad, n) + RADIUS_WEIGHT * UNIT * pos(
        min_radius(rad, n) - main_of(x),
    )
}

/// Sum of `other - self` along axis `off` (0 for x, `n` for y) over the
/// circles `j' < j`, `j' != k`, that circle `k` overlaps.
pub open spec fn pull(x: Seq<i64>, rad: Seq<i64>, k: int, j: int, off: int) -> int
    decreases j,
{
    if j <= 0 {
        0
    } else {
        pull(x, rad, k, j - 1, off) + if j - 1 != k && pair_excess(x, rad, k, j - 1) > 0 {
            x[off + j - 1] - x[off + k]
        } else {
            0
        }
    }
}

/// Number of circles among `0 .. i` that reach out of the enclosing circle.
pub open spec fn boundary_count(x: Seq<i64>, rad: Seq<i64>, i: int) -> int
    decreases i,
{
    if i <= 0 {
        0
    } else {
        boundary_count(x, rad, i - 1) + if boundary_excess(x, rad, i - 1) > 0 {
            1int
        } else {
            0
        }
    }
}

/// Component `k < 2n` of the subgradient, scaled by `UNIT`: `CONSTRAINT_WEIGHT` times the
/// coordinate when the circle reaches out, plus `CONSTRAINT_WEIGHT` times its pull towards
/// the circles it overlaps.
pub open spec fn grad_coord(x: Seq<i64>, rad: Seq<i64>, k: int) -> int {
    let n = rad.len() as int;
    let i = if k < n {
        k
    } else {
        k - n
    };
    let off = if k < n {
        0
    } else {
        n
    };
    CONSTRAINT_WEIGHT * ((if boundary_excess(x, rad, i) > 0 {
        x[k] as int
    } else {
        0
    }) + pull(x, rad, i, n, off))
}

/// The radius component of the subgradient, scaled by `UNIT`: one, less `RADIUS_WEIGHT`
/// for each circle that reaches out and once more when the radius is below the
/// smallest radius.
pub open spec fn grad_radius(x: Seq<i64>, rad: Seq<i64>) -> int {
    let n = rad.len() as int;
    UNIT * (1 - RADIUS_WEIGHT * (boundary_count(x, rad, n) + if min_radius(rad, n) - main_of(x) > 0 {
        1int
    } else {
        0
    }))
}

/// `g` is the subgradient of the penalty at `x`.
pub open spec fn is_gradient(x: Seq<i64>, rad: Seq<i64>, g: Seq<i128>) -> bool {
    &&& g.len() == x.len()
    &&& forall|k: int| 0 <= k < 2 * rad.len() ==> #[trigger] g[k] == grad_coord(x, rad, k)
    &&& g[2 * rad.len() as int] == grad_radius(x, rad)
}

/// The subgradient of the penalty at `x`, as a vector.
pub open spec fn gradient(x: Seq<i64>, rad: Seq<i64>) -> Seq<i128> {
    Seq::new(
        x.len(),
        |k: int|
            if k < 2 * rad.len() {
                grad_coord(x, rad, k) as i128
            } else {
                grad_radius(x, rad) as i128
            },
    )
}

fn boundary_term(x: &Vec<i64>, rad: &Vec<i64>, i: usize) -> (r: i128)
    requires
        config_ok(x@, rad@),
        i < rad.len(),
    ensures
        r == boundary_excess(x@, rad@, i as int),
        r <= BOUNDARY_MAX,
{
    let n = rad.len();
    let cx = x[i] as i128;
    let cy = x[n + i] as i128;
    let room = x[2 * n] as i128 - rad[i] as i128;
    assert(in_limit(x@[i as int] as int) && in_limit(x@[n + i] as int) && in_limit(x@[2 * n] as int));
    proof {
        lemma_square_bound(cx as int, COORD_LIMIT as int);
        lemma_square_bound(cy as int, COORD_LIMIT as int);
        lemma_square_bound(room as int, 2 * COORD_LIMIT);
    }
    cx * cx + cy * cy - room * room + PENALTY_EPS
}

fn pair_term(x: &Vec<i64>, rad: &Vec<i64>, i: usize, j: usize) -> (r: i128)
    requires
        config_ok(x@, rad@),
        i < rad.len(),
        j < rad.len(),
    ensures
        r == pair_excess(x@, rad@, i as int, j as int),
        r <= PAIR_MAX,
{
    let n = rad.len();
    assert(in_limit(x@[i as int] as int) && in_limit(x@[n + i] as int));
    assert(in_limit(x@[j as int] as int) && in_limit(x@[n + j] as int));
    assert(0 < rad@[i as int] && 0 < rad@[j as int]);
    let dx = x[i] as i128 - x[j] as i128;
    let dy = x[n + i] as i128 - x[n + j] as i128;
    let s = rad[i] as i128 + rad[j] as i128;
    proof {
        lemma_square_bound(dx as int, 2 * COORD_LIMIT);
        lemma_square_bound(dy as int, 2 * COORD_LIMIT);
        lemma_square_bound(s as int, 2 * COORD_LIMIT);
    }
    -(dx * dx) - dy * dy + s * s + PENALTY_EPS
}

proof fn lemma_min_radius_bounds(rad: Seq<i64>, k: int)
    requires
        1 <= k <= rad.len(),
        forall|q: int| 0 <= q < rad.len() ==> 0 < #[trigger] rad[q] <= COORD_LIMIT,
    ensures
        0 < min_radius(rad, k) <= COORD_LIMIT,
    decreases k,
{
    if k > 1 {
        lemma_min_radius_bounds(rad, k - 1);
    }
}

fn smallest_radius(rad: &Vec<i64>) -> (m: i64)
    requires
        rad.len() >= 1,
    ensures
        m == min_radius(rad@, rad.len() as int),
{
    let mut m = rad[0];
    let mut k: usize = 1;
    while k < rad.len()
        invariant
            1 <= k <= rad.len(),
            m == min_radius(rad@, k as int),
        decreases rad.len() - k,
    {
        if rad[k] < m {
            m = rad[k];
        }
        k += 1;
    }
    m
}

/// The pull of circle `k` along axis `off` over all circles.
fn pull_sum(x: &Vec<i64>, rad: &Vec<i64>, k: usize, off: usize) -> (r: i128)
    requires
        config_ok(x@, rad@),
        k < rad.len(),
        off == 0 || off == rad.len(),
    ensures
        r == pull(x@, rad@, k as int, rad.len() as int, off as int),
        -(MAX_CIRCLES as i128) * 2 * COORD_LIMIT <= r <= (MAX_CIRCLES as i128) * 2 * COORD_LIMIT,
{
    let n = rad.len();
    let mut acc: i128 = 0;
    let mut j: usize = 0;
    while j < n
        invariant
            config_ok(x@, rad@),
            n == rad.len(),
            k < n,
            off == 0 || off == n,
            j <= n,
            acc == pull(x@, rad@, k as int, j as int, off as int),
            -(j as i128) * 2 * COORD_LIMIT <= acc <= (j as i128) * 2 * COORD_LIMIT,
        decreases n - j,
    {
        if j != k && pair_term(x, rad, k, j) > 0 {
            assert(in_limit(x@[off + j] as int) && in_limit(x@[off + k] as int));
            acc = acc + (x[off + j] as i128 - x[off + k] as i128);
        }
        j += 1;
    }
    acc
}

/// The penalty objective at `x` and its subgradient, both exact: the value is
/// [`penalty`] and the gradient meets [`is_gradient`].
pub fn calcfg(x: &Vec<i64>, radiuses: &Vec<i64>) -> (r: (i128, Vec<i128>))
    requires
        config_ok(x@, radiuses@),
    ensures
        r.0 == penalty(x@, radiuses@),
        is_gradient(x@, radiuses@, r.1@),
        r.1@ == gradient(x@, radiuses@),
{
    let n = radiuses.len();
    let big_r = x[2 * n];
    assert(in_limit(x@[2 * n] as int));

    let mut acc: i128 = 0;
    let mut i: usize = 0;
    while i < n
        invariant
            config_ok(x@, radiuses@),
            n == radiuses.len(),
            i <= n,
            acc == circles_penalty(x@, radiuses@, i as int),
            0 <= acc <= (i as i128) * ROW_MAX,
        decreases n - i,
    {
        let b = boundary_term(x, radiuses, i);
        let mut row: i128 = 0;
        let mut j: usize = i + 1;
        while j < n
            invariant
                config_ok(x@, radiuses@),
                n == radiuses.len(),
                i < n,
                i + 1 <= j <= n,
                row == row_penalty(x@, radiuses@, i as int, j as int),
                0 <= row <= (j as i128) * PAIR_MAX,
            decreases n - j,
        {
            let p = pair_term(x, radiuses, i, j);
            assert(0 <= row + pos(p as int) <= (j + 1) * PAIR_MAX <= MAX_CIRCLES * PAIR_MAX)
                by (nonlinear_arith)
                requires
                    0 <= row <= j * PAIR_MAX,
                    pos(p as int) <= PAIR_MAX,
                    0 <= pos(p as int),
                    j + 1 <= MAX_CIRCLES,
            ;
            if p > 0 {
                row = row + p;
            }
            j += 1;
        }
        assert(0 <= acc + pos(b as int) + row <= (i + 1) * ROW_MAX <= MAX_CIRCLES * ROW_MAX)
            by (nonlinear_arith)
            requires
                0 <= acc <= i * ROW_MAX,
                0 <= pos(b as int) <= BOUNDARY_MAX,
                0 <= row <= n * PAIR_MAX,
                n <= MAX_CIRCLES,
                i + 1 <= MAX_CIRCLES,
                ROW_MAX == BOUNDARY_MAX + MAX_CIRCLES * PAIR_MAX,
        ;
        acc = acc + if b > 0 {
            b
        } else {
            0
        } + row;
        i += 1;
    }
    let min_r = smallest_radius(radiuses);
    let short = min_r as i128 - big_r as i128;
    assert(in_limit(min_r as int)) by {
        assert(0 < radiuses@[0] <= COORD_LIMIT);
        lemma_min_radius_bounds(radiuses@, n as int);
    }
    assert(0 <= CONSTRAINT_WEIGHT * acc <= CONSTRAINT_WEIGHT * (MAX_CIRCLES * ROW_MAX)) by (nonlinear_arith)
        requires
            0 <= acc <= MAX_CIRCLES * ROW_MAX,
    ;
    let shortfall: i128 = if short > 0 {
        short
    } else {
        0
    };
    assert(-COORD_LIMIT * UNIT <= big_r * UNIT <= COORD_LIMIT * UNIT) by (nonlinear_arith)
        requires
            in_limit(big_r as int),
    ;
    assert(0 <= RADIUS_WEIGHT * UNIT * shortfall <= RADIUS_WEIGHT * UNIT * (2 * COORD_LIMIT)) by (nonlinear_arith)
        requires
            0 <= shortfall <= 2 * COORD_LIMIT,
    ;
    let f = big_r as i128 * UNIT as i128 + CONSTRAINT_WEIGHT * acc + RADIUS_WEIGHT * UNIT as i128 * shortfall;

    let mut gx: Vec<i128> = Vec::new();
    let mut count: i128 = 0;
    let mut k: usize = 0;
    while k < n
        invariant
            config_ok(x@, radiuses@),
            n == radiuses.len(),
            k <= n,
            gx.len() == k,
            forall|q: int| 0 <= q < k ==> #[trigger] gx@[q] == grad_coord(x@, radiuses@, q),
            count == boundary_count(x@, radiuses@, k as int),
            0 <= count <= k,
        decreases n - k,
    {
        let out = boundary_term(x, radiuses, k) > 0;
        let px = pull_sum(x, radiuses, k, 0);
        assert(in_limit(x@[k as int] as int));
        let own: i128 = if out {
            x[k] as i128
        } else {
            0
        };
        gx.push(CONSTRAINT_WEIGHT * (own + px));
        if out {
            count = count + 1;
        }
        k += 1;
    }
    let mut gy: Vec<i128> = Vec::new();
    let mut k: usize = 0;
    while k < n
        invariant
            config_ok(x@, radiuses@),
            n == radiuses.len(),
            k <= n,
            gy.len() == k,
            forall|q: int| 0 <= q < k ==> #[trigger] gy@[q] == grad_coord(x@, radiuses@, n + q),
        decreases n - k,
    {
        let out = boundary_term(x, radiuses, k) > 0;
        let py = pull_sum(x, radiuses, k, n);
        assert(in_limit(x@[n + k] as int));
        let own: i128 = if out {
            x[n + k] as i128
        } else {
            0
        };
        gy.push(CONSTRAINT_WEIGHT * (own + py));
        k += 1;
    }
    let extra: i128 = if short > 0 {
        1
    } else {
        0
    };
    let g = concat_gradients(&gx, &gy, UNIT as i128 * (1 - RADIUS_WEIGHT * (count + extra)));
    assert forall|q: int| 0 <= q < 2 * n implies #[trigger] g@[q] == grad_coord(x@, radiuses@, q) by {
        if q >= n {
            assert(g@[q] == gy@[q - n]);
        }
    }
    assert(g@ =~= gradient(x@, radiuses@));
    (f, g)
}

} // verus!
