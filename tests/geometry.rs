use circle_packing::angle::{sin_cos, TRIG_ONE};
use circle_packing::circle::Circle;
use circle_packing::packing::{
    center_of_small_circle_touch_main, closest_center_to_two_touching_circles, extra_angle,
    get_rotated_point, is_valid_pack,
};
use circle_packing::point::{Point, UNIT};

fn placed(r: i64, x: i64, y: i64) -> Circle {
    Circle::new(r, Point { x, y })
}

#[test]
fn point_empty_is_origin() {
    let p = Point::empty();
    assert_eq!(p, Point { x: 0, y: 0 });
}

#[test]
fn circle_constructors() {
    let e = Circle::empty();
    assert_eq!(e.center, None);
    assert_eq!(e.radius, 0);
    let w = Circle::with_radius(5);
    assert_eq!(w.center, None);
    assert_eq!(w.radius, 5);
    let n = Circle::new(3, Point { x: 1, y: 2 });
    assert_eq!(n.center, Some(Point { x: 1, y: 2 }));
    assert_eq!(n.radius, 3);
}

#[test]
fn touching_circles_overlap() {
    let a = placed(UNIT, 0, 0);
    let b = placed(UNIT, 2 * UNIT, 0);
    assert!(a.overlap(&b));
    let c = placed(UNIT, 2 * UNIT + 1, 0);
    assert!(!a.overlap(&c));
}

#[test]
fn overlap_is_symmetric_on_examples() {
    let cases = [
        (placed(UNIT, 0, 0), placed(2 * UNIT, 3 * UNIT, 0)),
        (placed(UNIT, 0, 0), placed(2 * UNIT, 3 * UNIT, 1)),
        (placed(3, -7, 4), placed(5, 1, -2)),
        (placed(UNIT, 0, 0), Circle::with_radius(UNIT)),
    ];
    for (a, b) in cases.iter() {
        assert_eq!(a.overlap(b), b.overlap(a));
    }
}

#[test]
fn unplaced_circles_never_overlap() {
    let a = Circle::with_radius(UNIT);
    let b = placed(UNIT, 0, 0);
    assert!(!a.overlap(&b));
    assert!(!a.overlap(&a));
}

#[test]
fn is_overlap_scans_the_list() {
    let c = placed(UNIT, 0, 0);
    let far = vec![placed(UNIT, 5 * UNIT, 0), Circle::with_radius(UNIT)];
    assert!(!c.is_overlap(&far));
    let near = vec![placed(UNIT, 5 * UNIT, 0), placed(UNIT, 0, UNIT)];
    assert!(c.is_overlap(&near));
    assert!(!c.is_overlap(&vec![]));
}

#[test]
fn containment_boundary_counts_as_inside() {
    // Distance from the origin exactly R - r.
    let c = placed(UNIT, 0, UNIT);
    assert!(c.is_inside_main_circle(2 * UNIT));
    let d = placed(3 * UNIT, 4 * UNIT, 0);
    assert!(d.is_inside_main_circle(7 * UNIT));
    // One tick further out is outside.
    let e = placed(UNIT, 0, UNIT + 1);
    assert!(!e.is_inside_main_circle(2 * UNIT));
    // An enclosing circle smaller than the circle.
    assert!(!placed(2 * UNIT, 0, 0).is_inside_main_circle(UNIT));
    // Unplaced circles are not inside.
    assert!(!Circle::with_radius(1).is_inside_main_circle(10 * UNIT));
}

#[test]
fn valid_pack_examples() {
    let two = vec![placed(UNIT, 0, UNIT + 1), placed(UNIT, 0, -UNIT - 1)];
    assert!(is_valid_pack(2 * UNIT + 1, &two));
    // The same circles touch when moved one tick closer.
    let touching = vec![placed(UNIT, 0, UNIT), placed(UNIT, 0, -UNIT)];
    assert!(!is_valid_pack(2 * UNIT, &touching));
    // Too small an enclosing circle.
    assert!(!is_valid_pack(2 * UNIT, &two));
    // An unplaced circle makes the packing invalid.
    assert!(!is_valid_pack(10 * UNIT, &vec![Circle::with_radius(UNIT)]));
    assert!(is_valid_pack(0, &vec![]));
}

#[test]
fn sine_and_cosine_values() {
    let (s, c) = sin_cos(0);
    assert_eq!(s, 0);
    assert_eq!(c, TRIG_ONE);
    let (s, c) = sin_cos(1_570_796_327);
    assert!((s - TRIG_ONE).abs() <= 2);
    assert!(c.abs() <= 2);
    let (s, c) = sin_cos(523_598_776);
    assert!((s - TRIG_ONE / 2).abs() <= 2);
    assert!((c - 866_025_404).abs() <= 2);
    let (s, c) = sin_cos(3_141_592_654 + 523_598_776);
    assert!((s + TRIG_ONE / 2).abs() <= 2);
    assert!((c + 866_025_404).abs() <= 2);
}

#[test]
fn rotated_point_examples() {
    assert_eq!(get_rotated_point(UNIT, 0), Point { x: 0, y: UNIT });
    let p = get_rotated_point(UNIT, 1_570_796_327);
    assert!((p.x - UNIT).abs() <= 1);
    assert!(p.y.abs() <= 1);
}

#[test]
fn extra_angle_examples() {
    // Two unit circles in an enclosing circle of radius 2 sit opposite.
    let a = extra_angle(UNIT, UNIT, 2 * UNIT).unwrap();
    assert!((a - 3_141_592_654).abs() <= 4);
    // asin(1/3) twice.
    let b = extra_angle(UNIT, UNIT, 4 * UNIT).unwrap();
    assert!((b - 2 * 339_836_909).abs() <= 4);
    // No room for a circle wider than half the enclosing circle.
    assert_eq!(extra_angle(3 * UNIT, UNIT, 5 * UNIT), None);
    assert_eq!(extra_angle(UNIT, UNIT, UNIT), None);
}

#[test]
fn seat_against_the_enclosing_circle() {
    let prev = placed(UNIT, 0, 2 * UNIT);
    let small = Circle::with_radius(UNIT);
    let (a, b) = center_of_small_circle_touch_main(&prev, &small, 3 * UNIT).unwrap();
    assert!(a.x >= b.x);
    for p in [a, b] {
        let d0 = ((p.x as f64).powi(2) + (p.y as f64).powi(2)).sqrt();
        assert!((d0 - 2.0 * UNIT as f64).abs() <= 3.0);
        let d1 = ((p.x as f64).powi(2) + (p.y as f64 - 2.0 * UNIT as f64).powi(2)).sqrt();
        assert!((d1 - 2.1 * UNIT as f64).abs() <= 3.0);
    }
    assert_eq!(center_of_small_circle_touch_main(&Circle::with_radius(UNIT), &small, 3 * UNIT), None);
    assert_eq!(center_of_small_circle_touch_main(&prev, &Circle::with_radius(4 * UNIT), 3 * UNIT), None);
}

#[test]
fn seat_between_two_circles() {
    let c1 = placed(UNIT, -UNIT, 0);
    let c2 = placed(UNIT, UNIT, 0);
    let p = closest_center_to_two_touching_circles(&c1, &c2, UNIT).unwrap();
    // The tangent centers are (0, +-sqrt(3)) units; both are equally close to
    // the origin, and each lies two units (plus the slack) from both circles.
    assert!(p.x.abs() <= 2);
    assert!((p.y.abs() - 1_732_052).abs() <= 3);
    // Too far apart for a circle of this radius to touch both.
    let far = placed(UNIT, 10 * UNIT, 0);
    assert_eq!(closest_center_to_two_touching_circles(&c1, &far, UNIT), None);
    // Coinciding centers.
    assert_eq!(closest_center_to_two_touching_circles(&c1, &c1, UNIT), None);
    assert_eq!(closest_center_to_two_touching_circles(&c1, &Circle::with_radius(UNIT), UNIT), None);
}

#[test]
fn closest_center_prefers_the_origin_side() {
    let c1 = placed(UNIT, -UNIT, 5 * UNIT);
    let c2 = placed(UNIT, UNIT, 5 * UNIT);
    let p = closest_center_to_two_touching_circles(&c1, &c2, UNIT).unwrap();
    assert!((p.y - (5 * UNIT - 1_732_052)).abs() <= 3);
}
