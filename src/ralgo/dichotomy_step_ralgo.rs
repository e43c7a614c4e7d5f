//! The step-size controller around the r-algorithm.
use vstd::prelude::*;
use crate::circle::Circle;
use crate::packing::radii_of;
use crate::ralgo::calcfg::{config_ok, penalty};
use crate::ralgo::ralgo::{ralgo_result_with_iterations, ralgo_run, sat_u32};
use crate::ralgo::ralgo_params::RalgoParams;
use crate::ralgo::ralgo_result::RalgoResult;
use crate::ralgo::utils::{
    all_placed, circles_of, circles_to_dvector, config_of, dvector_to_answer, get_last,
    lemma_config_round_trip,
};

verus! {

/// First step size of the controller: 40.96 units.
pub const START_STEP: i64 = 40_960_000;

/// The controller stops once the step size falls below 0.01 units.
pub const MIN_STEP: i64 = 10_000;

/// Scale of the improvement threshold: `eps` is in parts per billion.
pub const EPS_SCALE: i128 = 1_000_000_000;

/// A run that took the enclosing radius from `old_radius` to `new_radius` is
/// accepted: the new radius is positive and the relative improvement
/// `(old - new) / old` exceeds `eps / EPS_SCALE`.
pub open spec fn accepts(old_radius: int, new_radius: int, eps: int) -> bool {
    new_radius > 0 && (old_radius - new_radius) * EPS_SCALE > eps * old_radius
}

/// Every accepted update makes the enclosing radius smaller, so the radius
/// never grows across the accepted updates of the controller.
pub proof fn lemma_accepted_radius_decreases(old_radius: int, new_radius: int, eps: int)
    requires
        old_radius > 0,
        eps >= 0,
        accepts(old_radius, new_radius, eps),
    ensures
        new_radius < old_radius,
{
    assert(eps * old_radius >= 0) by (nonlinear_arith)
        requires
            old_radius > 0,
            eps >= 0,
    ;
}

/// A run accepted after an earlier accepted run from `main_radius` keeps the
/// overall relative gain above `eps`.
proof fn lemma_accepts_chain(main_radius: int, mid: int, last: int, eps: int)
    requires
        main_radius > 0,
        eps >= 0,
        accepts(main_radius, mid, eps),
        mid > 0,
        accepts(mid, last, eps),
    ensures
        accepts(main_radius, last, eps),
{
    lemma_accepted_radius_decreases(mid, last, eps);
    assert((main_radius - last) * EPS_SCALE > (main_radius - mid) * EPS_SCALE) by (nonlinear_arith)
        requires
            last < mid,
    ;
}

/// Whether a run from radius `old_radius` to `new_radius` is accepted.
fn accepted(old_radius: i64, new_radius: i64, eps: u64) -> (r: bool)
    requires
        old_radius > 0,
    ensures
        r == accepts(old_radius as int, new_radius as int, eps as int),
{
    if new_radius <= 0 {
        return false;
    }
    let gain = old_radius as i128 - new_radius as i128;
    assert(0 <= eps * old_radius <= 0xFFFF_FFFF_FFFF_FFFF * 0x7FFF_FFFF_FFFF_FFFF) by (nonlinear_arith)
        requires
            0 <= eps <= 0xFFFF_FFFF_FFFF_FFFF,
            0 < old_radius <= 0x7FFF_FFFF_FFFF_FFFF,
    ;
    gain * EPS_SCALE > eps as i128 * old_radius as i128
}

/// The enclosing radius of a configuration: its last entry.
pub open spec fn last_of(x: Seq<i64>) -> int {
    x[x.len() - 1] as int
}

/// `a + b`, saturating at `u32::MAX`.
pub open spec fn sat_add(a: int, b: int) -> int {
    if a + b > u32::MAX {
        u32::MAX as int
    } else {
        a + b
    }
}

/// Number of halvings that take `step` below [`MIN_STEP`].
pub open spec fn halvings(step: int) -> int
    decreases step,
{
    if step < MIN_STEP || step <= 0 {
        0
    } else {
        1 + halvings(step / 2)
    }
}

/// The controller from configuration `x` at step `step`, with `calls` runs,
/// `iters` iterations and `evals` evaluations counted so far: the final
/// configuration and the three counters. Each run is [`ralgo_run`] from `x`
/// with initial step `step`; an [`accepts`]ed run moves to its point (and the
/// step goes back to [`START_STEP`] when `reset`), any other halves the step.
pub open spec fn controller_run(
    x: Seq<i64>,
    rad: Seq<i64>,
    reset: bool,
    eps: int,
    p: RalgoParams,
    step: int,
    calls: int,
    iters: int,
    evals: int,
) -> (Seq<i64>, int, int, int)
    decreases (if last_of(x) > 0 { last_of(x) } else { 0 }), (if step > 0 { step } else { 0 }),
{
    if step < MIN_STEP || last_of(x) <= 0 {
        (x, calls, iters, evals)
    } else {
        let run = ralgo_run(
            x,
            p.alpha as int,
            step,
            p.q1 as int,
            p.epsx as int,
            p.epsg as int,
            p.max_iterations as int,
            rad,
        );
        let y = run.2;
        let calls2 = sat_add(calls, 1);
        let iters2 = sat_add(iters, sat_u32(run.0));
        let evals2 = sat_add(evals, run.1);
        if accepts(last_of(x), last_of(y), eps) && 0 < last_of(y) < last_of(x) {
            controller_run(
                y,
                rad,
                reset,
                eps,
                p,
                if reset {
                    START_STEP as int
                } else {
                    step
                },
                calls2,
                iters2,
                evals2,
            )
        } else {
            controller_run(x, rad, reset, eps, p, step / 2, calls2, iters2, evals2)
        }
    }
}

/// The controller's outcome from the enclosing radius `main_radius` and
/// placed `circles`: [`controller_run`] from their configuration at
/// [`START_STEP`] with no counts.
pub open spec fn controller_result(
    main_radius: i64,
    circles: Seq<Circle>,
    reset: bool,
    eps: int,
    p: RalgoParams,
) -> (Seq<i64>, int, int, int) {
    controller_run(config_of(circles, main_radius), radii_of(circles), reset, eps, p, START_STEP as int, 0, 0, 0)
}

/// What the controller needs of its input: placed circles whose
/// configuration is within the limits, with a positive enclosing radius.
pub open spec fn controller_input_ok(main_radius: i64, circles: Seq<Circle>) -> bool {
    &&& all_placed(circles)
    &&& main_radius > 0
    &&& config_ok(config_of(circles, main_radius), radii_of(circles))
}

/// What the controller promises of its output `(r, cs)` for the input
/// `(main_radius, circles)`: the same radii, all placed, within the limits;
/// a radius no larger and a penalty no larger; and the input itself when the
/// radius did not change.
pub open spec fn controller_output_ok(
    main_radius: i64,
    circles: Seq<Circle>,
    r: i64,
    cs: Seq<Circle>,
) -> bool {
    &&& radii_of(cs) == radii_of(circles)
    &&& all_placed(cs)
    &&& 0 < r <= main_radius
    &&& config_ok(config_of(cs, r), radii_of(circles))
    &&& penalty(config_of(cs, r), radii_of(circles)) <= penalty(
        config_of(circles, main_radius),
        radii_of(circles),
    )
    &&& (r == main_radius ==> cs == circles)
}

/// Repeatedly runs the r-algorithm from the current arrangement, starting with
/// step [`START_STEP`]. A run is kept when [`accepts`] holds of the enclosing
/// radii; then the step goes back to [`START_STEP`] if `reset_step` holds.
/// A run that is not kept halves the step. Ends when the step falls below
/// [`MIN_STEP`], and reports the counters with the final arrangement.
#[verifier::loop_isolation(false)]
pub fn dichotomy_step_ralgo_result_with_iterations(
    main_circle_radiuse: i64,
    circles: &Vec<Circle>,
    reset_step: bool,
    eps: u64,
    ralgo_params: &RalgoParams,
) -> (r: RalgoResult)
    requires
        controller_input_ok(main_circle_radiuse, circles@),
        1 <= ralgo_params.alpha <= 1_000_000,
    ensures
        controller_output_ok(main_circle_radiuse, circles@, r.main_circle_radius, r.circles@),
        r.main_circle_radius == last_of(controller_result(main_circle_radiuse, circles@, reset_step, eps as int, *ralgo_params).0),
        r.circles@ == circles_of(controller_result(main_circle_radiuse, circles@, reset_step, eps as int, *ralgo_params).0, radii_of(circles@)),
        r.ralgo_calls == controller_result(main_circle_radiuse, circles@, reset_step, eps as int, *ralgo_params).1,
        r.iterations == controller_result(main_circle_radiuse, circles@, reset_step, eps as int, *ralgo_params).2,
        r.calcfg_calls == controller_result(main_circle_radiuse, circles@, reset_step, eps as int, *ralgo_params).3,
        r.main_circle_radius == main_circle_radiuse || accepts(main_circle_radiuse as int, r.main_circle_radius as int, eps as int),
        r.ralgo_calls >= 13,
        r.calcfg_calls >= r.ralgo_calls,
{
    let ghost rad = radii_of(circles@);
    let mut x = circles_to_dvector(circles, main_circle_radiuse);
    let ghost x0 = x@;
    let mut circles_radiuses: Vec<i64> = Vec::new();
    let mut k: usize = 0;
    while k < circles.len()
        invariant
            k <= circles.len(),
            circles_radiuses@ == rad.take(k as int),
        decreases circles.len() - k,
    {
        circles_radiuses.push(circles[k].radius);
        k += 1;
        assert(circles_radiuses@ =~= rad.take(k as int));
    }
    assert(circles_radiuses@ =~= rad);
    assert(x@[x.len() - 1] == main_circle_radiuse);

    let mut step_size: i64 = START_STEP;
    let mut ralgo_calls: u32 = 0;
    let mut total_iterations: u32 = 0;
    let mut total_calcfg_calls: u32 = 0;
    let ghost total = controller_run(x0, rad, reset_step, eps as int, *ralgo_params, START_STEP as int, 0, 0, 0);
    proof {
        reveal_with_fuel(halvings, 14);
        assert(halvings(START_STEP as int) == 13);
    }
    while step_size >= MIN_STEP
        invariant
            controller_run(x@, rad, reset_step, eps as int, *ralgo_params, step_size as int,
                ralgo_calls as int, total_iterations as int, total_calcfg_calls as int) == total,
            config_ok(x@, rad),
            circles_radiuses@ == rad,
            0 < x@[x.len() - 1] <= main_circle_radiuse,
            penalty(x@, rad) <= penalty(x0, rad),
            x@ == x0 || x@[x.len() - 1] < main_circle_radiuse,
            x@ == x0 || accepts(main_circle_radiuse as int, x@[x.len() - 1] as int, eps as int),
            0 < step_size <= START_STEP,
            ralgo_calls + halvings(step_size as int) >= 13,
            total_calcfg_calls >= ralgo_calls,
        decreases x@[x.len() - 1], step_size,
    {
        let ghost xs = x@;
        let (iterations, calcfg_calls, y) = ralgo_result_with_iterations(
            x.clone(),
            ralgo_params.alpha,
            step_size,
            ralgo_params.q1,
            ralgo_params.epsx,
            ralgo_params.epsg,
            ralgo_params.max_iterations,
            &circles_radiuses,
        );
        ralgo_calls = ralgo_calls.saturating_add(1);
        total_iterations = total_iterations.saturating_add(iterations);
        total_calcfg_calls = total_calcfg_calls.saturating_add(calcfg_calls);
        let old_last = get_last(&x);
        let new_last = get_last(&y);
        if accepted(old_last, new_last, eps) {
            proof {
                lemma_accepted_radius_decreases(old_last as int, new_last as int, eps as int);
                if xs != x0 {
                    lemma_accepts_chain(main_circle_radiuse as int, old_last as int, new_last as int, eps as int);
                }
            }
            x = y;
            if reset_step {
                step_size = START_STEP;
            }
        } else {
            step_size = step_size / 2;
        }
    }
    let (main_circle_radius, new_circles) = dvector_to_answer(&x, &circles_radiuses);
    proof {
        let cs = new_circles@;
        assert(radii_of(cs) =~= rad);
        assert(config_of(cs, main_circle_radius) =~= x@);
        if main_circle_radius == main_circle_radiuse {
            lemma_config_round_trip(circles@, main_circle_radiuse);
            assert(x@ == x0);
            assert(cs =~= circles@);
        }
    }
    RalgoResult::new(ralgo_calls, total_iterations, total_calcfg_calls, main_circle_radius, new_circles)
}

/// The controller of [`dichotomy_step_ralgo_result_with_iterations`], without
/// the counters: the final enclosing radius and arrangement, the same as there.
pub fn dichotomy_step_ralgo(
    main_circle_radiuse: i64,
    circles: &Vec<Circle>,
    reset_step: bool,
    eps: u64,
    ralgo_params: &RalgoParams,
) -> (r: (i64, Vec<Circle>))
    requires
        controller_input_ok(main_circle_radiuse, circles@),
        1 <= ralgo_params.alpha <= 1_000_000,
    ensures
        controller_output_ok(main_circle_radiuse, circles@, r.0, r.1@),
{
    let result = dichotomy_step_ralgo_result_with_iterations(
        main_circle_radiuse,
        circles,
        reset_step,
        eps,
        ralgo_params,
    );
    (result.main_circle_radius, result.circles)
}

} // verus!
