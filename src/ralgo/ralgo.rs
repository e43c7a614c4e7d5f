//! Shor's r-algorithm with space dilation, minimising the penalty objective.
//!
//! [`ralgo_run`] states the whole run over exact integer arithmetic; the
//! executable functions compute it step by step.
use vstd::prelude::*;
use crate::ralgo::calcfg::{calcfg, config_ok, gradient, penalty};
use crate::ralgo::linalg::{
    bounded, difference, difference_of, dilate, dilate_of, dot, dot_product, identity, identity_of,
    is_bounded, is_mat_bounded, is_square, mat_bounded, mat_vec, mat_view, mul_of, norm, norm_of,
    scale, scale_of, step, step_of, tr_mul_of, B_ONE, CAP, MAX_DIM,
};

verus! {

/// Longest line search, in steps.
pub const MAX_LINE_SEARCH: u32 = 500;

/// `r` is no worse than `x0` for the penalty objective, and differs from it
/// only when strictly better.
pub open spec fn improves_on(r: Seq<i64>, x0: Seq<i64>, rad: Seq<i64>) -> bool {
    &&& config_ok(r, rad)
    &&& penalty(r, rad) <= penalty(x0, rad)
    &&& (r == x0 || penalty(r, rad) < penalty(x0, rad))
}

/// A count of objective evaluations after one more, saturating at `u32::MAX`.
pub open spec fn bump(c: int) -> int {
    if c < u32::MAX {
        c + 1
    } else {
        c
    }
}

/// The state of a line search: point, step, distance travelled, steps taken,
/// best point, its penalty, evaluations, gradient at the point.
pub type Search = (Seq<i64>, int, int, int, Seq<i64>, int, int, Seq<i128>);

/// One step of the line search along `dx` (whose norm is `dn`). The tag is 0
/// when the run ends, 1 when the search goes on, 2 when it ends and the run
/// goes on.
pub open spec fn search_step(rad: Seq<i64>, dx: Seq<i128>, dn: int, epsg: int, s: Search) -> (int, Search) {
    match step_of(s.0, s.1, dx) {
        None => (0, s),
        Some(y) => {
            let ddx = s.2 + s.1 * dn / (B_ONE as int);
            let f = penalty(y, rad);
            let g = gradient(y, rad);
            let calls = bump(s.6);
            let bx = if f < s.5 {
                y
            } else {
                s.4
            };
            let bf = if f < s.5 {
                f
            } else {
                s.5
            };
            if !bounded(g) || norm_of(g) < epsg {
                (0, (y, s.1, ddx, s.3, bx, bf, calls, g))
            } else {
                let ls = s.3 + 1;
                let h = if ls % 3 == 0 {
                    s.1 * 11 / 10
                } else {
                    s.1
                };
                let t = (y, h, ddx, ls, bx, bf, calls, g);
                if h < -CAP || h > CAP || ls >= MAX_LINE_SEARCH {
                    (0, t)
                } else if dot(dx, g) > 0 {
                    (1, t)
                } else {
                    (2, t)
                }
            }
        },
    }
}

/// The line search: steps while the objective descends along `dx`.
pub open spec fn line_search(rad: Seq<i64>, dx: Seq<i128>, dn: int, epsg: int, s: Search) -> (int, Search)
    decreases MAX_LINE_SEARCH - s.3,
{
    if s.3 < 0 || s.3 >= MAX_LINE_SEARCH {
        (0, s)
    } else {
        let (tag, t) = search_step(rad, dx, dn, epsg, s);
        if tag == 1 && t.3 == s.3 + 1 {
            line_search(rad, dx, dn, epsg, t)
        } else {
            (tag, t)
        }
    }
}

/// The search direction `B B^T g0 / |B^T g0|` (scaled by `B_ONE`) and its
/// norm, or `None` when a value leaves [`CAP`] or `B^T g0` vanishes.
pub open spec fn direction(b: Seq<Seq<i128>>, g0: Seq<i128>) -> Option<(Seq<i128>, int)> {
    if !mat_bounded(b) || !bounded(g0) {
        None
    } else {
        let g1 = tr_mul_of(b, g0);
        let n1 = norm_of(g1);
        if !bounded(g1) || n1 == 0 {
            None
        } else {
            let u = scale_of(g1, B_ONE as int, n1);
            if !bounded(u) {
                None
            } else {
                let dx = mul_of(b, u);
                if !bounded(dx) {
                    None
                } else {
                    Some((dx, norm_of(dx)))
                }
            }
        }
    }
}

/// The dilated matrix after a line search that moved the gradient from `g0`
/// to `g1`: `B` dilated along `B^T (g1 - g0)` normalised.
pub open spec fn dilated(b: Seq<Seq<i128>>, g1: Seq<i128>, g0: Seq<i128>, alpha: int) -> Option<Seq<Seq<i128>>> {
    let d = difference_of(g1, g0);
    if !bounded(d) {
        None
    } else {
        let t = tr_mul_of(b, d);
        let nt = norm_of(t);
        if !bounded(t) || nt == 0 {
            None
        } else {
            let r = scale_of(t, B_ONE as int, nt);
            if !bounded(r) {
                None
            } else {
                dilate_of(b, r, alpha)
            }
        }
    }
}

/// The outer iterations from iteration `iter` on, with point `x`, step `h`,
/// matrix `b`, gradient `g0`, best point `bx` of penalty `bf`, and `calls`
/// evaluations so far. Gives the iterations made, the evaluations and the
/// best point.
pub open spec fn outer_run(
    rad: Seq<i64>,
    alpha: int,
    q1: int,
    epsx: int,
    epsg: int,
    max_iterations: int,
    x: Seq<i64>,
    h: int,
    b: Seq<Seq<i128>>,
    g0: Seq<i128>,
    bx: Seq<i64>,
    bf: int,
    calls: int,
    iter: int,
) -> (int, int, Seq<i64>)
    decreases max_iterations - iter,
{
    if iter >= max_iterations {
        (max_iterations, calls, bx)
    } else {
        match direction(b, g0) {
            None => (iter, calls, bx),
            Some((dx, dn)) => {
                let (tag, s) = line_search(rad, dx, dn, epsg, (x, h, 0, 0, bx, bf, calls, g0));
                let h2 = if s.3 == 1 {
                    s.1 * q1 / 1000
                } else {
                    s.1
                };
                if tag == 0 || h2 < -CAP || h2 > CAP || s.2 < epsx {
                    (iter, s.6, s.4)
                } else {
                    match dilated(b, s.7, g0, alpha) {
                        None => (iter, s.6, s.4),
                        Some(nb) => outer_run(
                            rad,
                            alpha,
                            q1,
                            epsx,
                            epsg,
                            max_iterations,
                            s.0,
                            h2,
                            nb,
                            s.7,
                            s.4,
                            s.5,
                            s.6,
                            iter + 1,
                        ),
                    }
                }
            },
        }
    }
}

/// The whole run of the r-algorithm from `x` with initial step `h`: the
/// iterations made, the objective evaluations and the best point seen. It
/// returns the start at once when the gradient there is below `epsg`, and
/// stops early when a fixed-point value would leave [`CAP`].
pub open spec fn ralgo_run(
    x: Seq<i64>,
    alpha: int,
    h: int,
    q1: int,
    epsx: int,
    epsg: int,
    max_iterations: int,
    rad: Seq<i64>,
) -> (int, int, Seq<i64>) {
    let g0 = gradient(x, rad);
    if !bounded(g0) || norm_of(g0) < epsg || h < -CAP || h > CAP {
        (0, 1, x)
    } else {
        outer_run(
            rad,
            alpha,
            q1,
            epsx,
            epsg,
            max_iterations,
            x,
            h,
            identity_of(x.len() as int),
            g0,
            x,
            penalty(x, rad),
            1,
            0,
        )
    }
}

/// `v` as a `u32`, saturating.
pub open spec fn sat_u32(v: int) -> int {
    if v < u32::MAX {
        v
    } else {
        u32::MAX as int
    }
}

/// The direction of [`direction`].
fn find_direction(b: &Vec<Vec<i128>>, g0: &Vec<i128>) -> (r: Option<(Vec<i128>, i128)>)
    requires
        is_square(mat_view(b@), g0.len() as int),
        g0.len() <= MAX_DIM,
    ensures
        r matches Some((dx, dn)) ==> direction(mat_view(b@), g0@) == Some((dx@, dn as int)) && dx.len()
            == g0.len() && bounded(dx@) && 0 <= dn < 0x1000_0000_0000_0000,
        r is None ==> direction(mat_view(b@), g0@) is None,
{
    if !is_mat_bounded(b) || !is_bounded(g0) {
        return None;
    }
    let g1 = mat_vec(b, g0, true);
    if !is_bounded(&g1) {
        return None;
    }
    let n1 = norm(&g1);
    if n1 == 0 {
        return None;
    }
    let u = scale(&g1, B_ONE, n1);
    if !is_bounded(&u) {
        return None;
    }
    let dx = mat_vec(b, &u, false);
    if !is_bounded(&dx) {
        return None;
    }
    let dn = norm(&dx);
    Some((dx, dn))
}

/// The matrix of [`dilated`].
fn dilation(b: &Vec<Vec<i128>>, g1: &Vec<i128>, g0: &Vec<i128>, alpha: u32) -> (r: Option<Vec<Vec<i128>>>)
    requires
        is_square(mat_view(b@), g0.len() as int),
        mat_bounded(mat_view(b@)),
        g0.len() <= MAX_DIM,
        g1.len() == g0.len(),
        bounded(g0@),
        bounded(g1@),
        1 <= alpha <= 1_000_000,
    ensures
        r matches Some(c) ==> dilated(mat_view(b@), g1@, g0@, alpha as int) == Some(mat_view(c@))
            && is_square(mat_view(c@), g0.len() as int),
        r is None ==> dilated(mat_view(b@), g1@, g0@, alpha as int) is None,
{
    let d = difference(g1, g0);
    if !is_bounded(&d) {
        return None;
    }
    let t = mat_vec(b, &d, true);
    if !is_bounded(&t) {
        return None;
    }
    let nt = norm(&t);
    if nt == 0 {
        return None;
    }
    let r = scale(&t, B_ONE, nt);
    if !is_bounded(&r) {
        return None;
    }
    let c = dilate(b, &r, alpha);
    match c {
        Some(cc) => {
            assert(is_square(mat_view(cc@), g0.len() as int));
            Some(cc)
        },
        None => None,
    }
}

/// One step of the line search: the state after [`search_step`].
#[verifier::loop_isolation(false)]
fn search_step_exec(
    rad: &Vec<i64>,
    dx: &Vec<i128>,
    dn: i128,
    epsg: i128,
    x: Vec<i64>,
    h: i128,
    ddx: i128,
    ls: u32,
    bx: Vec<i64>,
    bf: i128,
    calls: u32,
    g1: Vec<i128>,
) -> (r: (u8, Vec<i64>, i128, i128, u32, Vec<i64>, i128, u32, Vec<i128>))
    requires
        config_ok(x@, rad@),
        config_ok(bx@, rad@),
        bf == penalty(bx@, rad@),
        x.len() == dx.len(),
        bounded(dx@),
        0 <= dn < 0x1000_0000_0000_0000,
        -CAP <= h <= CAP,
        ls < MAX_LINE_SEARCH,
        -(ls * 0x2_0000_0000_0000_0000_0000) <= ddx <= ls * 0x2_0000_0000_0000_0000_0000,
        calls >= 1,
    ensures
        search_step(rad@, dx@, dn as int, epsg as int, (x@, h as int, ddx as int, ls as int, bx@, bf as int, calls as int, g1@))
            == (r.0 as int, (r.1@, r.2 as int, r.3 as int, r.4 as int, r.5@, r.6 as int, r.7 as int, r.8@)),
        r.0 <= 2,
        config_ok(r.1@, rad@),
        config_ok(r.5@, rad@),
        r.6 == penalty(r.5@, rad@),
        r.6 <= bf,
        r.5@ == bx@ || r.6 < bf,
        r.7 >= 1,
        r.4 <= MAX_LINE_SEARCH,
        r.0 != 0 ==> -(r.4 * 0x2_0000_0000_0000_0000_0000) <= r.3 <= r.4 * 0x2_0000_0000_0000_0000_0000,
        r.0 != 0 ==> -CAP <= r.2 <= CAP && r.4 == ls + 1 && bounded(r.8@) && r.8.len() == x.len(),
        r.0 == 1 ==> r.4 < MAX_LINE_SEARCH,
{
    let y = match step(&x, h, dx) {
        Some(y) => y,
        None => {
            return (0, x, h, ddx, ls, bx, bf, calls, g1);
        },
    };
    assert(-(CAP * 0x1000_0000_0000_0000) <= h * dn <= CAP * 0x1000_0000_0000_0000) by (nonlinear_arith)
        requires
            -CAP <= h <= CAP,
            0 <= dn < 0x1000_0000_0000_0000,
    ;
    let travel = crate::arith::div_floor(h * dn, B_ONE);
    proof {
        crate::arith::lemma_div_bounds((h * dn) as int, B_ONE as int, -0x2_0000_0000_0000_0000_0000, 0x2_0000_0000_0000_0000_0000);
    }
    let ddx2 = ddx + travel;
    let (f, g) = calcfg(&y, rad);
    let calls2: u32 = if calls < u32::MAX {
        calls + 1
    } else {
        calls
    };
    let better = f < bf;
    let (bx2, bf2) = if better {
        (y.clone(), f)
    } else {
        (bx, bf)
    };
    if !is_bounded(&g) {
        return (0, y, h, ddx2, ls, bx2, bf2, calls2, g);
    }
    if norm(&g) < epsg {
        return (0, y, h, ddx2, ls, bx2, bf2, calls2, g);
    }
    let ls2 = ls + 1;
    let h2 = if ls2 % 3 == 0 {
        crate::arith::div_floor(h * 11, 10)
    } else {
        h
    };
    if h2 < -CAP || h2 > CAP || ls2 >= MAX_LINE_SEARCH {
        return (0, y, h2, ddx2, ls2, bx2, bf2, calls2, g);
    }
    let d = dot_product(dx, &g);
    if d > 0 {
        (1, y, h2, ddx2, ls2, bx2, bf2, calls2, g)
    } else {
        (2, y, h2, ddx2, ls2, bx2, bf2, calls2, g)
    }
}

/// Runs the r-algorithm from `x` with initial step `h` (in ticks) and returns
/// the number of outer iterations made, the number of objective evaluations,
/// and the best configuration seen: exactly [`ralgo_run`].
///
/// Each outer iteration moves along `B B^T g` normalised, by steps of `h`,
/// while the objective keeps descending along it (at most
/// [`MAX_LINE_SEARCH`] steps; the step grows by a tenth every third step),
/// shrinks `h` by `q1` after a line search of one step, and dilates the
/// space along the change of gradient by `alpha`. The run ends when the
/// gradient norm falls below `epsg`, when a line search travels less than
/// `epsx`, after `max_iterations` iterations, or when a fixed-point value
/// would leave its bound.
#[verifier::loop_isolation(false)]
#[verifier::rlimit(100)]
#[verifier::spinoff_prover]
pub fn ralgo_result_with_iterations(
    x: Vec<i64>,
    alpha: u32,
    h: i64,
    q1: u32,
    epsx: i64,
    epsg: i128,
    max_iterations: usize,
    radiuses: &Vec<i64>,
) -> (r: (u32, u32, Vec<i64>))
    requires
        config_ok(x@, radiuses@),
        1 <= alpha <= 1_000_000,
    ensures
        r.0 == sat_u32(ralgo_run(x@, alpha as int, h as int, q1 as int, epsx as int, epsg as int, max_iterations as int, radiuses@).0),
        r.1 == ralgo_run(x@, alpha as int, h as int, q1 as int, epsx as int, epsg as int, max_iterations as int, radiuses@).1,
        r.2@ == ralgo_run(x@, alpha as int, h as int, q1 as int, epsx as int, epsg as int, max_iterations as int, radiuses@).2,
        improves_on(r.2@, x@, radiuses@),
        r.0 <= max_iterations,
        r.1 >= 1,
        max_iterations == 0 ==> r.2@ == x@,
        bounded(gradient(x@, radiuses@)) && norm_of(gradient(x@, radiuses@)) < epsg ==> r.2@ == x@ && r.0
            == 0 && r.1 == 1,
{
    let ghost rad = radiuses@;
    let ghost x0 = x@;
    let m = x.len();
    let (f0, g0) = calcfg(&x, radiuses);
    let h0 = h as i128;
    if !is_bounded(&g0) || h0 < -CAP || h0 > CAP {
        return (0, 1, x);
    }
    if norm(&g0) < epsg {
        return (0, 1, x);
    }
    let mut b = identity(m);
    let mut cur = x.clone();
    let mut hh = h0;
    let mut g0 = g0;
    let mut bx = x;
    let mut bf = f0;
    let mut calls: u32 = 1;
    let mut iter: usize = 0;
    let ghost total = outer_run(rad, alpha as int, q1 as int, epsx as int, epsg as int, max_iterations as int,
        x0, h0 as int, identity_of(m as int), g0@, x0, f0 as int, 1, 0);
    assert(total == ralgo_run(x0, alpha as int, h as int, q1 as int, epsx as int, epsg as int, max_iterations as int, rad));
    while iter < max_iterations
        invariant
            outer_run(rad, alpha as int, q1 as int, epsx as int, epsg as int, max_iterations as int,
                cur@, hh as int, mat_view(b@), g0@, bx@, bf as int, calls as int, iter as int) == total,
            config_ok(cur@, rad),
            config_ok(bx@, rad),
            bf == penalty(bx@, rad),
            improves_on(bx@, x0, rad),
            m == cur.len(),
            m <= MAX_DIM,
            is_square(mat_view(b@), m as int),
            g0.len() == m,
            bounded(g0@),
            -CAP <= hh <= CAP,
            calls >= 1,
            iter <= max_iterations,
        decreases max_iterations - iter,
    {
        let iters: u32 = if iter < u32::MAX as usize {
            iter as u32
        } else {
            u32::MAX
        };
        let (dx, dn) = match find_direction(&b, &g0) {
            Some(p) => p,
            None => {
                return (iters, calls, bx);
            },
        };
        let ghost start = (cur@, hh as int, 0int, 0int, bx@, bf as int, calls as int, g0@);
        let ghost ls_total = line_search(rad, dx@, dn as int, epsg as int, start);
        let ghost bx_before = bx@;
        let ghost bf_before = bf;
        let mut tag: u8 = 1;
        let mut sh = hh;
        let mut ddx: i128 = 0;
        let mut ls: u32 = 0;
        let mut g1 = g0.clone();
        assert(g1@ == g0@);
        while tag == 1
            invariant
                tag == 1 ==> line_search(rad, dx@, dn as int, epsg as int,
                    (cur@, sh as int, ddx as int, ls as int, bx@, bf as int, calls as int, g1@)) == ls_total,
                tag != 1 ==> (tag as int, (cur@, sh as int, ddx as int, ls as int, bx@, bf as int, calls as int, g1@)) == ls_total,
                tag <= 2,
                ls <= MAX_LINE_SEARCH,
                tag == 1 ==> ls < MAX_LINE_SEARCH,
                tag != 0 ==> -CAP <= sh <= CAP && bounded(g1@) && g1.len() == m,
                tag != 0 ==> -(ls * 0x2_0000_0000_0000_0000_0000) <= ddx <= ls * 0x2_0000_0000_0000_0000_0000,
                tag == 1 ==> -CAP <= sh <= CAP,
                config_ok(cur@, rad),
                config_ok(bx@, rad),
                bf == penalty(bx@, rad),
                improves_on(bx@, x0, rad),
                bf <= bf_before,
                m == cur.len(),
                dx.len() == m,
                bounded(dx@),
                0 <= dn < 0x1000_0000_0000_0000,
                calls >= 1,
            decreases 2 * (MAX_LINE_SEARCH - ls) + (if tag == 1 { 1int } else { 0 }),
        {
            let ghost s = (cur@, sh as int, ddx as int, ls as int, bx@, bf as int, calls as int, g1@);
            let ghost old_bx = bx@;
            let ghost old_bf = bf;
            let (t, x2, h2, d2, l2, b2, f2, c2, gg) = search_step_exec(
                radiuses, &dx, dn, epsg, cur, sh, ddx, ls, bx, bf, calls, g1);
            tag = t;
            cur = x2;
            sh = h2;
            ddx = d2;
            ls = l2;
            bx = b2;
            bf = f2;
            calls = c2;
            g1 = gg;
            proof {
                assert(line_search(rad, dx@, dn as int, epsg as int, s) == ls_total);
                if !(bx@ == old_bx) {
                    assert(bf < old_bf);
                }
            }
        }
        if tag == 0 {
            return (iters, calls, bx);
        }
        assert(-(CAP * 0x1_0000_0000) <= sh * q1 <= CAP * 0x1_0000_0000) by (nonlinear_arith)
            requires
                -CAP <= sh <= CAP,
                0 <= q1 <= 0xFFFF_FFFF,
        ;
        let h2: i128 = if ls == 1 {
            crate::arith::div_floor(sh * q1 as i128, 1000)
        } else {
            sh
        };
        if h2 < -CAP || h2 > CAP || ddx < epsx as i128 {
            return (iters, calls, bx);
        }
        let nb = match dilation(&b, &g1, &g0, alpha) {
            Some(c) => c,
            None => {
                return (iters, calls, bx);
            },
        };
        b = nb;
        g0 = g1;
        hh = h2;
        iter += 1;
    }
    let iters: u32 = if max_iterations < u32::MAX as usize {
        max_iterations as u32
    } else {
        u32::MAX
    };
    (iters, calls, bx)
}

/// Runs the r-algorithm from `x` and returns the best configuration seen:
/// the point of [`ralgo_run`], as [`ralgo_result_with_iterations`] returns it.
pub fn ralg5(
    x: Vec<i64>,
    alpha: u32,
    h: i64,
    q1: u32,
    epsx: i64,
    epsg: i128,
    max_iterations: usize,
    radiuses: &Vec<i64>,
) -> (r: Vec<i64>)
    requires
        config_ok(x@, radiuses@),
        1 <= alpha <= 1_000_000,
    ensures
        r@ == ralgo_run(x@, alpha as int, h as int, q1 as int, epsx as int, epsg as int, max_iterations as int, radiuses@).2,
        improves_on(r@, x@, radiuses@),
        max_iterations == 0 ==> r@ == x@,
        bounded(gradient(x@, radiuses@)) && norm_of(gradient(x@, radiuses@)) < epsg ==> r@ == x@,
{
    let (_, _, r) = ralgo_result_with_iterations(x, alpha, h, q1, epsx, epsg, max_iterations, radiuses);
    r
}

} // verus!
