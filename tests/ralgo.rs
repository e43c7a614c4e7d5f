use circle_packing::circle::Circle;
use circle_packing::evaluate::{
    calculate_points, heuristic_single_case_console, matching_decimal_digits_after_point,
};
use circle_packing::packing::{find_answer, is_valid_pack};
use circle_packing::point::{Point, UNIT};
use circle_packing::ralgo::calcfg::calcfg;
use circle_packing::ralgo::dichotomy_step_ralgo::{
    dichotomy_step_ralgo, dichotomy_step_ralgo_result_with_iterations,
};
use circle_packing::ralgo::ralgo::{ralg5, ralgo_result_with_iterations};
use circle_packing::ralgo::ralgo_params::RalgoParams;
use circle_packing::ralgo::ralgo_result::RalgoResult;
use circle_packing::ralgo::utils::{circles_to_dvector, concat_gradients, dvector_to_answer, get_last};

#[test]
fn default_params() {
    let p = RalgoParams::default();
    assert_eq!(p.alpha, 3000);
    assert_eq!(p.q1, 900);
    assert_eq!(p.epsx, 1);
    assert_eq!(p.epsg, 1);
    assert_eq!(p.max_iterations, 3000);
}

#[test]
fn params_builders_set_one_field() {
    let p = RalgoParams::default().with_alpha(1500).with_q1(1000).with_max_iterations(100_000);
    assert_eq!(p.alpha, 1500);
    assert_eq!(p.q1, 1000);
    assert_eq!(p.max_iterations, 100_000);
    assert_eq!(p.epsx, 1);
    let q = p.with_epsx(7).with_epsg(9);
    assert_eq!(q.epsx, 7);
    assert_eq!(q.epsg, 9);
    assert_eq!(q.alpha, 1500);
}

#[test]
fn result_record() {
    let r = RalgoResult::new(1, 2, 3, 4, vec![Circle::empty()]);
    assert_eq!(r.ralgo_calls, 1);
    assert_eq!(r.iterations, 2);
    assert_eq!(r.calcfg_calls, 3);
    assert_eq!(r.main_circle_radius, 4);
    assert_eq!(r.circles, vec![Circle::empty()]);
}

#[test]
fn configuration_round_trip() {
    let cs = vec![
        Circle::new(UNIT, Point { x: 1, y: 2 }),
        Circle::new(2 * UNIT, Point { x: -3, y: 4 }),
    ];
    let x = circles_to_dvector(&cs, 9);
    assert_eq!(x, vec![1, -3, 2, 4, 9]);
    assert_eq!(get_last(&x), 9);
    let (r, back) = dvector_to_answer(&x, &vec![UNIT, 2 * UNIT]);
    assert_eq!(r, 9);
    assert_eq!(back, cs);
}

#[test]
fn gradient_concatenation() {
    assert_eq!(concat_gradients(&vec![1, 2], &vec![3, 4], 5), vec![1, 2, 3, 4, 5]);
    assert_eq!(concat_gradients(&vec![], &vec![], 5), vec![5]);
}

#[test]
fn calcfg_without_violations() {
    // One unit circle at the origin in an enclosing circle of radius 2.
    let (f, g) = calcfg(&vec![0, 0, 2 * UNIT], &vec![UNIT]);
    assert_eq!(f, 2 * (UNIT as i128) * (UNIT as i128));
    assert_eq!(g, vec![0, 0, UNIT as i128]);
}

#[test]
fn calcfg_with_violations() {
    // Two unit circles at (0, 0) and (1, 0) units, enclosing radius 1.5 units.
    let u = UNIT as i128;
    let x = vec![0, UNIT, 0, 0, 3 * UNIT / 2];
    let (f, g) = calcfg(&x, &vec![UNIT, UNIT]);
    // Containment: circle 0 gives 0 - 0.25 + eps < 0; circle 1 gives
    // 1 - 0.25 + eps > 0. Overlap: 4 - 1 + eps > 0.
    let b1 = u * u - (u / 2) * (u / 2) + 1;
    let pair = 4 * u * u - u * u + 1;
    assert_eq!(f, 3 * u / 2 * u + 2000 * (b1 + pair));
    // x components: circle 0 is pulled toward circle 1 (+1 unit), circle 1
    // has its own coordinate and is pulled toward circle 0 (-1 unit).
    assert_eq!(g, vec![2000 * u, 2000 * (u - u), 0, 0, u * (1 - 1000)]);
}

#[test]
fn calcfg_radius_below_smallest_circle() {
    let u = UNIT as i128;
    let (f, g) = calcfg(&vec![0, 0, UNIT / 2], &vec![UNIT]);
    let b = -(u / 2) * (u / 2) + 1;
    assert!(b < 0);
    assert_eq!(f, u / 2 * u + 1000 * u * (u / 2));
    assert_eq!(g, vec![0, 0, u * (1 - 1000)]);
}

#[test]
fn calcfg_at_a_tight_optimum() {
    // One unit circle filling an enclosing circle of radius 1: the containment
    // constraint holds with equality, so its slack makes it active.
    let u = UNIT as i128;
    let (f, g) = calcfg(&vec![0, 0, UNIT], &vec![UNIT]);
    assert_eq!(f, u * u + 2000);
    assert_eq!(g, vec![0, 0, u * (1 - 1000)]);
    // With one tick of room, the gradient is that of the radius alone.
    let (_, g) = calcfg(&vec![0, 0, UNIT + 1], &vec![UNIT]);
    assert_eq!(g, vec![0, 0, u]);
}

fn penalty(x: &Vec<i64>, rad: &Vec<i64>) -> i128 {
    calcfg(x, rad).0
}

#[test]
fn ralg5_never_worsens_the_penalty() {
    let rad = vec![UNIT, 2 * UNIT];
    let x0 = vec![0, 3 * UNIT, 0, 0, 5 * UNIT];
    let y = ralg5(x0.clone(), 3000, 1_000_000, 900, 1, 1, 200, &rad);
    assert_eq!(y.len(), 5);
    assert!(penalty(&y, &rad) <= penalty(&x0, &rad));
    // The loose start leaves room to shrink the enclosing radius.
    assert!(get_last(&y) < 5 * UNIT);
    let (it, calls, z) = ralgo_result_with_iterations(x0.clone(), 3000, 1_000_000, 900, 1, 1, 200, &rad);
    assert_eq!(z, y);
    assert!(it <= 200);
    assert!(calls >= 1);
}

#[test]
fn dichotomy_refines_a_loose_packing() {
    let cs = vec![
        Circle::new(UNIT, Point { x: -2 * UNIT, y: 0 }),
        Circle::new(UNIT, Point { x: 2 * UNIT, y: 0 }),
    ];
    let params = RalgoParams::default();
    let (r, out) = dichotomy_step_ralgo(4 * UNIT, &cs, true, 0, &params);
    assert!(r < 4 * UNIT);
    assert!(r > UNIT);
    assert_eq!(out.len(), 2);
    assert!(out.iter().all(|c| c.radius == UNIT && c.center.is_some()));
    let res = dichotomy_step_ralgo_result_with_iterations(4 * UNIT, &cs, false, 10_000, &params);
    assert!(res.main_circle_radius <= 4 * UNIT);
    assert!(res.ralgo_calls >= 13);
    assert!(res.calcfg_calls >= res.ralgo_calls);
}

#[test]
fn dichotomy_keeps_an_arrangement_it_cannot_improve() {
    // A huge threshold rejects every run.
    let cs = vec![Circle::new(UNIT, Point { x: 0, y: 0 })];
    let (r, out) = dichotomy_step_ralgo(3 * UNIT, &cs, true, 2_000_000_000, &RalgoParams::default());
    assert_eq!(r, 3 * UNIT);
    assert_eq!(out, cs);
}

#[test]
fn five_circles_refined_after_search() {
    // The best known packing of radii 1..5 has enclosing radius 9.001397.
    let mut radii: Vec<i64> = (1..=5).map(|k| k * UNIT).collect();
    let (r, cs) = find_answer(&mut radii, 30);
    assert!(is_valid_pack(r, &cs));
    let params = RalgoParams::default();
    let (r2, cs2) = dichotomy_step_ralgo(r, &cs, false, 0, &params);
    assert!(r2 <= r);
    assert!(is_valid_pack(r2, &cs2));
    assert!((r2 - 9_001_397).abs() <= 300, "radius {}", r2);
    let mut got: Vec<i64> = cs2.iter().map(|c| c.radius).collect();
    got.sort();
    assert_eq!(got, (1..=5).map(|k| k * UNIT).collect::<Vec<i64>>());
}

#[test]
fn five_circles_with_step_reset_and_threshold() {
    let mut radii: Vec<i64> = (1..=5).map(|k| k * UNIT).collect();
    let (r, cs) = find_answer(&mut radii, 30);
    let params = RalgoParams::default().with_alpha(1500).with_q1(1000);
    let res = dichotomy_step_ralgo_result_with_iterations(r, &cs, true, 10_000, &params);
    assert!(res.main_circle_radius <= r);
    assert!(is_valid_pack(res.main_circle_radius, &res.circles));
    assert!((res.main_circle_radius - 9_001_397).abs() <= 300);
    assert!(res.ralgo_calls >= 13);
}

#[test]
fn heuristic_console_small_case() {
    let params = vec![(false, 0u64), (true, 0u64)];
    let pairs = vec![(3000u32, 900u32)];
    let (r, cs) = heuristic_single_case_console(2, &params, &pairs);
    assert_eq!(cs.len(), 2);
    assert!(r <= 3 * UNIT);
}

#[test]
fn points_formula() {
    assert_eq!(calculate_points(UNIT, UNIT), 100_000);
    assert_eq!(calculate_points(2 * UNIT, UNIT), 0);
    assert_eq!(calculate_points(3 * UNIT, UNIT), 0);
    assert_eq!(calculate_points(UNIT / 2, UNIT), 150_000);
    assert_eq!(calculate_points(11 * UNIT / 10, UNIT), 90_000);
}

#[test]
fn matching_digits_after_point() {
    let m = |a: &str, b: &str| matching_decimal_digits_after_point(&a.to_string(), &b.to_string());
    assert_eq!(m("9.001397", "9.0014"), 3);
    assert_eq!(m("9.0014", "9.0014"), 4);
    assert_eq!(m("1.5", "2.5"), 1);
    assert_eq!(m("1.", "1.5"), 0);
    assert_eq!(m("3.25.7", "3.259"), 2);
}

#[test]
fn ralg5_without_iterations_returns_its_start() {
    let rad = vec![UNIT, 2 * UNIT];
    let x0 = vec![0, 3 * UNIT, 0, 0, 5 * UNIT];
    assert_eq!(ralg5(x0.clone(), 3000, 1_000_000, 900, 1, 1, 0, &rad), x0);
    let (it, calls, z) = ralgo_result_with_iterations(x0.clone(), 3000, 1_000_000, 900, 1, 1, 0, &rad);
    assert_eq!((it, calls), (0, 1));
    assert_eq!(z, x0);
    // A gradient threshold above the gradient norm stops at once.
    let (it, calls, z) = ralgo_result_with_iterations(x0.clone(), 3000, 1_000_000, 900, 1, i128::MAX, 50, &rad);
    assert_eq!((it, calls), (0, 1));
    assert_eq!(z, x0);
}

#[test]
fn optimizer_forms_agree() {
    let rad = vec![UNIT, UNIT, UNIT];
    let x0 = vec![-2 * UNIT, 2 * UNIT, 0, 0, 0, 2 * UNIT, 5 * UNIT];
    let y = ralg5(x0.clone(), 2000, 500_000, 900, 1, 1, 300, &rad);
    let (it, calls, z) = ralgo_result_with_iterations(x0, 2000, 500_000, 900, 1, 1, 300, &rad);
    assert_eq!(y, z);
    assert!(it <= 300);
    assert!(calls >= 1);
}

#[test]
fn controller_forms_agree() {
    let cs = vec![
        Circle::new(UNIT, Point { x: -2 * UNIT, y: 0 }),
        Circle::new(2 * UNIT, Point { x: 3 * UNIT, y: 0 }),
    ];
    let params = RalgoParams::default().with_alpha(2000);
    let (r, out) = dichotomy_step_ralgo(6 * UNIT, &cs, false, 10_000, &params);
    let res = dichotomy_step_ralgo_result_with_iterations(6 * UNIT, &cs, false, 10_000, &params);
    assert_eq!(r, res.main_circle_radius);
    assert_eq!(out, res.circles);
    assert!(r < 6 * UNIT);
    // The overall relative gain exceeds the threshold of 1e-5.
    assert!(((6 * UNIT - r) as i128) * 1_000_000_000 > 10_000 * (6 * UNIT) as i128);
}
