use circle_packing::circle::Circle;
use circle_packing::packing::{find_answer, is_valid_pack, pack_circles};
use circle_packing::point::{Point, UNIT};

fn units(v: &[i64]) -> Vec<i64> {
    v.iter().map(|r| r * UNIT).collect()
}

fn sorted(mut v: Vec<i64>) -> Vec<i64> {
    v.sort();
    v
}

#[test]
fn single_circle_packs_at_its_own_radius() {
    let cs = pack_circles(&units(&[1]), UNIT).unwrap();
    assert_eq!(cs, vec![Circle::new(UNIT, Point { x: 0, y: 0 })]);
    assert!(is_valid_pack(UNIT, &cs));
}

#[test]
fn enclosing_radius_below_largest_radius_is_infeasible() {
    assert_eq!(pack_circles(&units(&[1]), UNIT - 1), None);
    assert_eq!(pack_circles(&units(&[1, 3, 2]), 3 * UNIT - 1), None);
    assert_eq!(pack_circles(&units(&[5, 1]), 2 * UNIT), None);
}

#[test]
fn two_equal_circles_need_more_than_twice_the_radius() {
    // Touching counts as overlapping, so radius exactly 2 is not enough.
    assert_eq!(pack_circles(&units(&[1, 1]), 2 * UNIT), None);
    let cs = pack_circles(&units(&[1, 1]), 2 * UNIT + 1000).unwrap();
    assert!(is_valid_pack(2 * UNIT + 1000, &cs));
    assert_eq!(cs[0].center, Some(Point { x: 0, y: UNIT + 1000 }));
}

#[test]
fn packings_found_are_valid() {
    let radii = units(&[1, 2, 3, 4, 5]);
    for r in [10 * UNIT, 12 * UNIT, 15 * UNIT] {
        let cs = pack_circles(&radii, r).unwrap();
        assert!(is_valid_pack(r, &cs));
        let got: Vec<i64> = cs.iter().map(|c| c.radius).collect();
        assert_eq!(got, radii);
    }
    let many = units(&[3, 1, 4, 1, 5, 9, 2, 6]);
    let cs = pack_circles(&many, 30 * UNIT).unwrap();
    assert!(is_valid_pack(30 * UNIT, &cs));
}

#[test]
fn find_answer_single_circle() {
    let mut radii = units(&[1]);
    let (r, cs) = find_answer(&mut radii, 5);
    // The starting bound, ceil(1) = 1, is already the best radius: the
    // bisection's packing widened by a thousandth does not beat it.
    assert_eq!(r, UNIT);
    assert_eq!(cs.len(), 1);
    assert_eq!(radii, units(&[1]));
}

#[test]
fn find_answer_two_circles() {
    let mut radii = units(&[1, 1]);
    let (r, cs) = find_answer(&mut radii, 5);
    assert!(r >= 2 * UNIT && r <= 2 * UNIT + 3 * UNIT / 1000);
    assert_eq!(cs.len(), 2);
}

#[test]
fn find_answer_five_circles() {
    let mut radii = units(&[1, 2, 3, 4, 5]);
    let (r, cs) = find_answer(&mut radii, 30);
    assert!(is_valid_pack(r, &cs));
    assert!(r < 15 * UNIT);
    // The best known packing has radius 9.0014; the heuristic gets within 15%.
    assert!(r > 9 * UNIT && r < 10_350_000, "radius {}", r);
    let got: Vec<i64> = cs.iter().map(|c| c.radius).collect();
    assert_eq!(sorted(got), units(&[1, 2, 3, 4, 5]));
    assert_eq!(sorted(radii), units(&[1, 2, 3, 4, 5]));
}

#[test]
fn find_answer_is_deterministic() {
    let mut a = units(&[2, 3, 1, 4]);
    let mut b = units(&[2, 3, 1, 4]);
    let ra = find_answer(&mut a, 12);
    let rb = find_answer(&mut b, 12);
    assert_eq!(ra, rb);
    assert_eq!(a, b);
}

#[test]
fn find_answer_reorders_the_radii() {
    let initial = units(&[1, 2, 3, 4, 5, 6]);
    let mut radii = initial.clone();
    let _ = find_answer(&mut radii, 10);
    assert_ne!(radii, initial);
    assert_eq!(sorted(radii), initial);
}

#[test]
fn find_answer_without_rounds_keeps_the_bound() {
    let mut radii = units(&[1, 2]);
    let (r, cs) = find_answer(&mut radii, 0);
    assert_eq!(radii, units(&[1, 2]));
    assert_eq!(r, 3 * UNIT);
    assert_eq!(cs, vec![Circle::empty(), Circle::empty()]);
}

#[test]
fn every_packing_found_is_valid() {
    // A fixed linear congruential sequence of radius lists and enclosing radii.
    let mut state: u64 = 12345;
    let mut next = |m: u64| {
        state = state.wrapping_mul(6364136223846793005).wrapping_add(1442695040888963407);
        (state >> 33) % m
    };
    let mut found = 0;
    for _ in 0..60 {
        let n = 1 + next(7) as usize;
        let radii: Vec<i64> = (0..n).map(|_| (1 + next(5_000) as i64) * 1000).collect();
        let total: i64 = radii.iter().sum();
        let r = total / 2 + next(total as u64) as i64;
        if let Some(cs) = pack_circles(&radii, r) {
            found += 1;
            assert!(is_valid_pack(r, &cs));
            let got: Vec<i64> = cs.iter().map(|c| c.radius).collect();
            assert_eq!(got, radii);
        }
        let max = *radii.iter().max().unwrap();
        assert_eq!(pack_circles(&radii, max - 1), None);
    }
    assert!(found > 10);
}
