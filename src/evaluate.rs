//! A whole experiment on the circles of radii `1, 2, ..., n`: the constructive
//! search followed by refinement under several parameter sets, and the score
//! of an answer against a reference radius.
use vstd::prelude::*;
use vstd::string::*;
use crate::circle::{all_wf, Circle};
use crate::packing::{
    ceil_units, find_answer, first_round_radius, first_round_succeeds, is_valid_pack, radii_of, radii_ok,
    total, valid_pack,
};
use crate::point::{in_limit, COORD_LIMIT, UNIT};
use crate::ralgo::calcfg::MAX_CIRCLES;
use crate::ralgo::dichotomy_step_ralgo::{
    controller_input_ok, controller_output_ok, dichotomy_step_ralgo_result_with_iterations,
};
use crate::ralgo::ralgo_params::RalgoParams;
use crate::ralgo::utils::config_of;

verus! {

/// Largest `n` for which the radii `1 .. n` fit the coordinate limit.
pub const MAX_TEST_NUMBER: u32 = 70;

/// The radii `1, 2, ..., n` units, in ticks.
pub open spec fn unit_radii(n: int) -> Seq<i64> {
    Seq::new(n as nat, |k: int| ((k + 1) * UNIT) as i64)
}

/// Score of an answer against the reference radius, in thousandths of a
/// point: `max(0, (2 - answer / jury_answer) * 100)`, rounded down.
pub open spec fn points_of(answer: int, jury_answer: int) -> int {
    let p = (200_000 * jury_answer - 100_000 * answer) / jury_answer;
    if p > 0 {
        p
    } else {
        0
    }
}

/// The score of `answer` against `jury_answer`; see [`points_of`].
pub fn calculate_points(answer: i64, jury_answer: i64) -> (r: i64)
    requires
        0 < jury_answer <= COORD_LIMIT,
        in_limit(answer as int),
    ensures
        r == points_of(answer as int, jury_answer as int),
{
    let num: i128 = 200_000 * jury_answer as i128 - 100_000 * answer as i128;
    let p = crate::arith::div_floor(num, jury_answer as i128);
    proof {
        assert(-(300_000 * COORD_LIMIT) * jury_answer <= num <= 300_000 * COORD_LIMIT * jury_answer)
            by (nonlinear_arith)
            requires
                0 < jury_answer <= COORD_LIMIT,
                -COORD_LIMIT <= answer <= COORD_LIMIT,
                num == 200_000 * jury_answer - 100_000 * answer,
        ;
        crate::arith::lemma_div_bounds(num as int, jury_answer as int, -(300_000 * COORD_LIMIT), 300_000 * COORD_LIMIT);
    }
    if p > 0 {
        p as i64
    } else {
        0
    }
}

/// A sum of `len` values of at most `m` is at most `len * m`.
proof fn lemma_total_bound(s: Seq<i64>, m: int)
    requires
        forall|k: int| 0 <= k < s.len() ==> #[trigger] s[k] <= m,
    ensures
        total(s) <= s.len() * m,
    decreases s.len(),
{
    if s.len() > 0 {
        lemma_total_bound(s.drop_last(), m);
        assert(total(s) <= (s.len() - 1) * m + m);
        assert((s.len() - 1) * m + m == s.len() * m) by (nonlinear_arith);
    }
}

/// A valid packing of radii within the limits is a valid input of the
/// step-size controller.
proof fn lemma_controller_input(main_radius: i64, cs: Seq<Circle>)
    requires
        valid_pack(main_radius as int, cs),
        all_wf(cs),
        radii_ok(radii_of(cs)),
        1 <= cs.len() <= MAX_CIRCLES,
        in_limit(main_radius as int),
    ensures
        controller_input_ok(main_radius, cs),
{
    let n = cs.len() as int;
    let x = config_of(cs, main_radius);
    assert forall|k: int| 0 <= k < n implies (#[trigger] cs[k]).center.is_some() by {
        assert(cs[k].inside(main_radius as int));
    }
    assert(cs[0].inside(main_radius as int));
    assert(0 < radii_of(cs)[0]);
    assert forall|k: int| 0 <= k < x.len() implies in_limit(#[trigger] x[k] as int) by {
        if k < n {
            assert(cs[k].wf());
        } else if k < 2 * n {
            assert(cs[k - n].wf());
        }
    }
}

/// The output of the step-size controller is within the coordinate limit.
proof fn lemma_controller_output(main_radius: i64, circles: Seq<Circle>, r: i64, cs: Seq<Circle>)
    requires
        controller_output_ok(main_radius, circles, r, cs),
    ensures
        all_wf(cs),
        in_limit(r as int),
{
    let n = cs.len() as int;
    let x = config_of(cs, r);
    assert(radii_of(cs).len() == n);
    assert(x[2 * n] == r);
    assert forall|k: int| 0 <= k < n implies #[trigger] cs[k].wf() by {
        assert(cs[k].center.is_some());
        assert(in_limit(x[k] as int) && in_limit(x[n + k] as int));
        assert(radii_of(cs)[k] == cs[k].radius);
    }
}

/// Packs the circles of radii `1, ..., test_number` units: first by
/// [`find_answer`] with 10000 rounds, then by the step-size controller from
/// that packing, once per pair of `alpha_q1_pairs` (dilation and step decay, in
/// thousandths, with 100000 iterations) and per `(reset_step, eps)` of
/// `algorithm_params`. Keeps the smallest radius whose packing is valid.
///
/// When the search finds no packing, its outcome is returned unrefined.
pub fn heuristic_single_case_console(
    test_number: u32,
    algorithm_params: &[(bool, u64)],
    alpha_q1_pairs: &Vec<(u32, u32)>,
) -> (r: (i64, Vec<Circle>))
    requires
        1 <= test_number <= MAX_TEST_NUMBER,
        forall|k: int| 0 <= k < alpha_q1_pairs.len() ==> 1 <= (#[trigger] alpha_q1_pairs@[k]).0 <= 1_000_000,
    ensures
        r.1.len() == test_number,
        (valid_pack(r.0 as int, r.1@) && radii_of(r.1@).to_multiset() == unit_radii(
            test_number as int,
        ).to_multiset()) || (r.0 == ceil_units(total(unit_radii(test_number as int)))
            && forall|k: int|
            0 <= k < r.1.len() ==> #[trigger] r.1@[k] == Circle { center: None, radius: 0 }),
        first_round_succeeds(unit_radii(test_number as int)) ==> valid_pack(r.0 as int, r.1@) && r.0
            <= first_round_radius(unit_radii(test_number as int)),
{
    let ghost start = unit_radii(test_number as int);
    let mut radiuses: Vec<i64> = Vec::new();
    let mut k: u32 = 0;
    while k < test_number
        invariant
            k <= test_number <= MAX_TEST_NUMBER,
            start == unit_radii(test_number as int),
            radiuses@ == start.take(k as int),
        decreases test_number - k,
    {
        assert(start[k as int] == (k + 1) * UNIT);
        radiuses.push((k as i64 + 1) * UNIT);
        k += 1;
        assert(radiuses@ =~= start.take(k as int));
    }
    assert(radiuses@ =~= start);
    proof {
        assert forall|q: int| 0 <= q < start.len() implies 0 < #[trigger] start[q] <= COORD_LIMIT by {
            assert(start[q] == (q + 1) * UNIT);
        }
        lemma_total_bound(start, MAX_TEST_NUMBER * UNIT);
        assert(start.len() * (MAX_TEST_NUMBER * UNIT) <= MAX_TEST_NUMBER * (MAX_TEST_NUMBER * UNIT))
            by (nonlinear_arith)
            requires
                start.len() <= MAX_TEST_NUMBER,
        ;
    }
    let (main_circle_radius, circles) = find_answer(&mut radiuses, 10000);
    let mut best_radius = main_circle_radius;
    let mut best_circles = circles.clone();
    assert(best_circles@ == circles@);
    if !is_valid_pack(main_circle_radius, &circles) {
        return (best_radius, best_circles);
    }
    proof {
        if !(valid_pack(main_circle_radius as int, circles@) && radii_of(circles@).to_multiset()
            == start.to_multiset() && radii_ok(radii_of(circles@))) {
            assert(circles@[0] == Circle { center: None, radius: 0 });
            assert(!circles@[0].inside(main_circle_radius as int));
        }
        lemma_controller_input(main_circle_radius, circles@);
    }

    let mut p: usize = 0;
    while p < alpha_q1_pairs.len()
        invariant
            best_circles.len() == test_number,
            radii_of(best_circles@) == radii_of(circles@),
            radii_of(circles@).to_multiset() == start.to_multiset(),
            valid_pack(best_radius as int, best_circles@),
            best_radius <= main_circle_radius,
            first_round_succeeds(start) ==> main_circle_radius <= first_round_radius(start),
            start == unit_radii(test_number as int),
            controller_input_ok(main_circle_radius, circles@),
            forall|k: int| 0 <= k < alpha_q1_pairs.len() ==> 1 <= (#[trigger] alpha_q1_pairs@[k]).0 <= 1_000_000,
        decreases alpha_q1_pairs.len() - p,
    {
        let (alpha, q1) = alpha_q1_pairs[p];
        assert(1 <= alpha_q1_pairs@[p as int].0 <= 1_000_000);
        let mut a: usize = 0;
        while a < algorithm_params.len()
            invariant
                1 <= alpha <= 1_000_000,
                best_circles.len() == test_number,
                radii_of(best_circles@) == radii_of(circles@),
                valid_pack(best_radius as int, best_circles@),
                best_radius <= main_circle_radius,
                controller_input_ok(main_circle_radius, circles@),
            decreases algorithm_params.len() - a,
        {
            let (reset_step, eps) = algorithm_params[a];
            let params = RalgoParams::default().with_alpha(alpha).with_q1(q1).with_max_iterations(
                100_000,
            );
            let result = dichotomy_step_ralgo_result_with_iterations(
                main_circle_radius,
                &circles,
                reset_step,
                eps,
                &params,
            );
            proof {
                lemma_controller_output(main_circle_radius, circles@, result.main_circle_radius, result.circles@);
            }
            if is_valid_pack(result.main_circle_radius, &result.circles) && result.main_circle_radius
                < best_radius {
                best_radius = result.main_circle_radius;
                best_circles = result.circles;
            }
            a += 1;
        }
        p += 1;
    }
    (best_radius, best_circles)
}

/// Index of the first `'.'` of `s` at or after `from`, or the length of `s`.
pub open spec fn dot_from(s: Seq<char>, from: int) -> int
    decreases s.len() - from,
{
    if from >= s.len() {
        s.len() as int
    } else if s[from] == '.' {
        from
    } else {
        dot_from(s, from + 1)
    }
}

/// The characters after the first decimal point, up to the next point or the end.
pub open spec fn digits_after_point(s: Seq<char>) -> Seq<char> {
    let d = dot_from(s, 0);
    s.subrange(d + 1, dot_from(s, d + 1))
}

/// `k` is the length of the longest common prefix of `a` and `b`.
pub open spec fn is_common_prefix_len(a: Seq<char>, b: Seq<char>, k: int) -> bool {
    &&& 0 <= k <= a.len()
    &&& k <= b.len()
    &&& forall|i: int| 0 <= i < k ==> a[i] == b[i]
    &&& (k < a.len() && k < b.len() ==> a[k] != b[k])
}

proof fn lemma_dot_from_bounds(s: Seq<char>, from: int)
    requires
        0 <= from,
    ensures
        from <= s.len() ==> from <= dot_from(s, from) <= s.len(),
        from > s.len() ==> dot_from(s, from) == s.len(),
        dot_from(s, from) < s.len() ==> s[dot_from(s, from)] == '.',
        forall|i: int| from <= i < dot_from(s, from) ==> s[i] != '.',
    decreases s.len() - from,
{
    if from < s.len() && s[from] != '.' {
        lemma_dot_from_bounds(s, from + 1);
    }
}

/// The first `'.'` of `s` at or after `from`, or the length of `s`.
fn find_dot(s: &str, from: usize) -> (r: usize)
    requires
        from <= s@.len(),
    ensures
        r == dot_from(s@, from as int),
{
    let n = s.unicode_len();
    let mut i = from;
    proof {
        lemma_dot_from_bounds(s@, from as int);
    }
    while i < n
        invariant
            from <= i <= n,
            n == s@.len(),
            dot_from(s@, i as int) == dot_from(s@, from as int),
        decreases n - i,
    {
        if s.get_char(i) == '.' {
            return i;
        }
        i += 1;
    }
    i
}

/// Number of equal leading digits after the decimal point of two numbers
/// written in decimal; both must contain a point.
pub fn matching_decimal_digits_after_point(number1_str: &String, number2_str: &String) -> (r: usize)
    requires
        dot_from(number1_str@, 0) < number1_str@.len(),
        dot_from(number2_str@, 0) < number2_str@.len(),
    ensures
        is_common_prefix_len(
            digits_after_point(number1_str@),
            digits_after_point(number2_str@),
            r as int,
        ),
{
    let a = number1_str.as_str();
    let b = number2_str.as_str();
    let na = a.unicode_len();
    let nb = b.unicode_len();
    assert(a@ == number1_str@ && b@ == number2_str@);
    proof {
        lemma_dot_from_bounds(a@, 0);
        lemma_dot_from_bounds(b@, 0);
    }
    let da = find_dot(a, 0);
    let db = find_dot(b, 0);
    let ea = find_dot(a, da + 1);
    let eb = find_dot(b, db + 1);
    proof {
        lemma_dot_from_bounds(a@, da + 1);
        lemma_dot_from_bounds(b@, db + 1);
    }
    let ghost sa = digits_after_point(a@);
    let ghost sb = digits_after_point(b@);
    let mut k: usize = 0;
    while da + 1 + k < ea && db + 1 + k < eb
        invariant
            da + 1 + k <= ea <= a@.len(),
            db + 1 + k <= eb <= b@.len(),
            sa == a@.subrange(da + 1, ea as int),
            sb == b@.subrange(db + 1, eb as int),
            sa == digits_after_point(number1_str@),
            sb == digits_after_point(number2_str@),
            forall|i: int| 0 <= i < k ==> sa[i] == sb[i],
        decreases ea - k,
    {
        assert(sa[k as int] == a@[da + 1 + k] && sb[k as int] == b@[db + 1 + k]);
        if a.get_char(da + 1 + k) != b.get_char(db + 1 + k) {
            return k;
        }
        k += 1;
    }
    k
}

} // verus!
