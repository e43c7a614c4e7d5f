//! The constructive packer: places circles one by one along a front of placed
//! circles, for a given enclosing radius.
use vstd::prelude::*;
use crate::angle::{arcsin, arcsin_of, sin_cos, sin_cos_of, unit_range, TRIG_ONE, PI, TWO_PI};
use crate::arith::lemma_div_bounds;
use crate::circle::{all_wf, lemma_overlap_symmetric, Circle};
use crate::geometry::{circle_intersections, crossing};
use crate::random::{random_index, seeded_rng};
use crate::point::{dist2, in_limit, norm2, squared_distance, lemma_square_bound, Point, COORD_LIMIT, UNIT};

verus! {

/// Gap kept between a circle seated against the enclosing circle and the
/// front circle it is seated next to: one tenth of a unit.
pub const FRONT_GAP: i64 = 100_000;

/// Slack added to both tangency distances when seating a circle between two
/// placed circles: one tick.
pub const PAIR_SLACK: i64 = 1;

/// Circles placed along the enclosing circle keep this distance from it, in
/// ticks, so that rounding never carries them outside: one tick.
pub const RIM_SLACK: i64 = 1;

/// Resolution of the bisection on the placement angle: 1e-4 radians.
pub const ANGLE_TOLERANCE: i64 = 100_000;

/// Placement angles beyond two full turns are not searched.
pub const ANGLE_LIMIT: i64 = 2 * TWO_PI;

/// Every circle lies inside the enclosing circle of radius `main_radius`, and
/// no two circles overlap.
pub open spec fn valid_pack(main_radius: int, cs: Seq<Circle>) -> bool {
    &&& forall|k: int| 0 <= k < cs.len() ==> #[trigger] cs[k].inside(main_radius)
    &&& forall|i: int, j: int|
        0 <= i < j < cs.len() ==> !(#[trigger] cs[i]).overlaps(#[trigger] cs[j])
}

/// Every radius is positive and within the coordinate limit.
pub open spec fn radii_ok(rad: Seq<i64>) -> bool {
    forall|k: int| 0 <= k < rad.len() ==> 0 < #[trigger] rad[k] <= COORD_LIMIT
}

/// The circles have the given radii, in order.
pub open spec fn matches_radii(cs: Seq<Circle>, rad: Seq<i64>) -> bool {
    &&& cs.len() == rad.len()
    &&& forall|k: int| 0 <= k < cs.len() ==> (#[trigger] cs[k]).radius == rad[k]
}

/// The placed circles lie inside the enclosing circle and do not overlap.
pub open spec fn consistent(cs: Seq<Circle>, main_radius: int) -> bool {
    &&& forall|k: int|
        0 <= k < cs.len() && (#[trigger] cs[k]).center.is_some() ==> cs[k].inside(main_radius)
    &&& forall|i: int, j: int|
        0 <= i < cs.len() && 0 <= j < cs.len() && i != j ==> !(#[trigger] cs[i]).overlaps(
            #[trigger] cs[j],
        )
}

/// The state of a packing under construction: the circles carry the given
/// radii, the first one is placed and the placed ones are consistent.
pub open spec fn in_progress(cs: Seq<Circle>, rad: Seq<i64>, main_radius: int) -> bool {
    &&& matches_radii(cs, rad)
    &&& all_wf(cs)
    &&& consistent(cs, main_radius)
    &&& cs.len() >= 1
    &&& cs[0].center.is_some()
}

/// Every index of the front names a placed circle.
pub open spec fn front_ok(front: Seq<usize>, cs: Seq<Circle>) -> bool {
    forall|k: int|
        0 <= k < front.len() ==> (#[trigger] front[k]) < cs.len() && cs[front[k] as int].center.is_some()
}

/// Placing a circle that fits into an empty slot keeps the placed circles consistent.
proof fn lemma_place(cs: Seq<Circle>, i: int, c: Circle, main_radius: int)
    requires
        consistent(cs, main_radius),
        0 <= i < cs.len(),
        cs[i].center.is_none(),
        c.inside(main_radius),
        !c.overlaps_any(cs),
    ensures
        consistent(cs.update(i, c), main_radius),
{
    let ns = cs.update(i, c);
    assert forall|a: int, b: int|
        0 <= a < ns.len() && 0 <= b < ns.len() && a != b implies !(#[trigger] ns[a]).overlaps(
        #[trigger] ns[b],
    ) by {
        if a == i {
            assert(!c.overlaps(cs[b]));
        } else if b == i {
            assert(!c.overlaps(cs[a]));
            lemma_overlap_symmetric(ns[a], c);
        } else {
            assert(ns[a] == cs[a] && ns[b] == cs[b]);
        }
    }
}

/// Whether `c` lies inside the enclosing circle and overlaps none of `circles`.
fn fits(c: &Circle, circles: &Vec<Circle>, main_radius: i64) -> (r: bool)
    requires
        c.wf(),
        all_wf(circles@),
        in_limit(main_radius as int),
    ensures
        r == (c.inside(main_radius as int) && !c.overlaps_any(circles@)),
{
    c.is_inside_main_circle(main_radius) && !c.is_overlap(circles)
}

/// Places `c` into the empty slot `i` when it fits; reports whether it did.
fn try_place(circles: &mut Vec<Circle>, i: usize, c: Circle, main_radius: i64) -> (placed: bool)
    requires
        in_progress(old(circles)@, old(circles)@.map_values(|x: Circle| x.radius), main_radius as int),
        i < old(circles).len(),
        old(circles)@[i as int].center.is_none(),
        c.radius == old(circles)@[i as int].radius,
        c.wf(),
        in_limit(main_radius as int),
    ensures
        final(circles).len() == old(circles).len(),
        in_progress(final(circles)@, old(circles)@.map_values(|x: Circle| x.radius), main_radius as int),
        placed == (c.inside(main_radius as int) && !c.overlaps_any(old(circles)@)),
        placed ==> final(circles)@ == old(circles)@.update(i as int, c),
        placed ==> c.center.is_some(),
        !placed ==> final(circles)@ == old(circles)@,
{
    if fits(&c, circles, main_radius) {
        proof {
            lemma_place(circles@, i as int, c, main_radius as int);
            let ns = circles@.update(i as int, c);
            let rad = circles@.map_values(|x: Circle| x.radius);
            assert forall|k: int| 0 <= k < ns.len() implies (#[trigger] ns[k]).radius == rad[k] by {
                assert(circles@[k].radius == rad[k]);
            }
            assert forall|k: int| 0 <= k < ns.len() implies #[trigger] ns[k].wf() by {
                if k != i {
                    assert(circles@[k].wf());
                }
            }
        }
        circles.set(i, c);
        true
    } else {
        false
    }
}

/// `dist * t / TRIG_ONE`, rounded toward zero.
fn scaled_toward_zero(dist: i64, t: i128) -> (r: i128)
    requires
        0 <= dist <= COORD_LIMIT,
        unit_range(t as int),
    ensures
        -dist <= r <= dist,
        t >= 0 ==> r == dist * t / (TRIG_ONE as int),
        t < 0 ==> r == -(dist * (-t) / (TRIG_ONE as int)),
{
    let m: i128 = if t < 0 {
        -t
    } else {
        t
    };
    assert(0 <= dist * m <= dist * TRIG_ONE) by (nonlinear_arith)
        requires
            0 <= dist,
            0 <= m <= TRIG_ONE,
    ;
    let q = dist as i128 * m / TRIG_ONE;
    proof {
        lemma_div_bounds((dist * m) as int, TRIG_ONE as int, 0, dist as int);
    }
    if t < 0 {
        -q
    } else {
        q
    }
}

/// The point at distance `dist` from the origin in the direction `angle`,
/// measured clockwise from the positive y axis: `(dist sin a, dist cos a)`,
/// each coordinate rounded toward zero.
pub fn get_rotated_point(dist: i64, angle: i64) -> (p: Point)
    requires
        0 <= dist <= COORD_LIMIT,
        0 <= angle,
    ensures
        -dist <= p.x <= dist,
        -dist <= p.y <= dist,
        p.wf(),
        p == rotated_of(dist as int, angle as int),
{
    let (s, c) = sin_cos(angle);
    let x = scaled_toward_zero(dist, s);
    let y = scaled_toward_zero(dist, c);
    Point { x: x as i64, y: y as i64 }
}

/// `r / (main_radius - r)` is a sine: the enclosing circle leaves room for a
/// circle of radius `r` and is at least twice as wide.
pub open spec fn sine_ok(r: int, main_radius: int) -> bool {
    main_radius - r > 0 && r <= main_radius - r
}

/// The angle, seen from the origin, between two circles of radii `r1` and `r2`
/// that both touch the enclosing circle from inside and touch each other:
/// `asin(r1 / (R - r1)) + asin(r2 / (R - r2))`. `None` when an arcsine is
/// undefined.
pub fn extra_angle(r1: i64, r2: i64, main_radius: i64) -> (a: Option<i64>)
    requires
        0 <= r1 <= COORD_LIMIT,
        0 <= r2 <= COORD_LIMIT,
        in_limit(main_radius as int),
    ensures
        a.is_some() == (sine_ok(r1 as int, main_radius as int) && sine_ok(r2 as int, main_radius as int)),
        a matches Some(v) ==> 0 <= v <= PI,
        a matches Some(v) ==> extra_of(r1 as int, r2 as int, main_radius as int) == Some(v as int),
{
    let room1 = main_radius - r1;
    let room2 = main_radius - r2;
    if room1 <= 0 || r1 > room1 || room2 <= 0 || r2 > room2 {
        return None;
    }
    let s1 = r1 as i128 * TRIG_ONE / room1 as i128;
    let s2 = r2 as i128 * TRIG_ONE / room2 as i128;
    proof {
        assert(r1 * TRIG_ONE <= TRIG_ONE * room1) by (nonlinear_arith)
            requires
                0 <= r1 <= room1,
        ;
        assert(r2 * TRIG_ONE <= TRIG_ONE * room2) by (nonlinear_arith)
            requires
                0 <= r2 <= room2,
        ;
        lemma_div_bounds((r1 * TRIG_ONE) as int, room1 as int, 0, TRIG_ONE as int);
        lemma_div_bounds((r2 * TRIG_ONE) as int, room2 as int, 0, TRIG_ONE as int);
    }
    Some(arcsin(s1) + arcsin(s2))
}

/// The two centers of [`center_of_small_circle_touch_main`]: the crossing
/// points of the circle of radius `main_radius - small_radius` around the
/// origin and the circle of radius `small_radius + prev.radius + FRONT_GAP`
/// around `prev`, larger x first.
pub open spec fn rim_seats(prev: Circle, small_radius: int, main_radius: int) -> Option<(Point, Point)> {
    match prev.center {
        Some(pc) => if main_radius < small_radius {
            None
        } else {
            match crossing(
                Point { x: 0, y: 0 },
                main_radius - small_radius,
                pc,
                small_radius + prev.radius + FRONT_GAP,
            ) {
                Some((a, b)) => if a.x >= b.x {
                    Some((a, b))
                } else {
                    Some((b, a))
                },
                None => None,
            }
        },
        None => None,
    }
}

/// The center of [`closest_center_to_two_touching_circles`]: of the crossing
/// points of the circles of radii `r1 + r3 + PAIR_SLACK` around `c1` and
/// `r2 + r3 + PAIR_SLACK` around `c2`, the one closer to the origin (on a
/// tie, the one with the larger x).
pub open spec fn pair_seat(c1: Circle, c2: Circle, r3: int) -> Option<Point> {
    match (c1.center, c2.center) {
        (Some(p1), Some(p2)) => {
            let reach = 2 * r3 + c1.radius + c2.radius;
            if dist2(p1, p2) > reach * reach {
                None
            } else {
                match crossing(p1, c1.radius + r3 + PAIR_SLACK, p2, c2.radius + r3 + PAIR_SLACK) {
                    Some((a, b)) => {
                        let lo = if a.x <= b.x {
                            a
                        } else {
                            b
                        };
                        let hi = if a.x <= b.x {
                            b
                        } else {
                            a
                        };
                        if norm2(lo) < norm2(hi) {
                            Some(lo)
                        } else {
                            Some(hi)
                        }
                    },
                    None => None,
                }
            }
        },
        _ => None,
    }
}

/// The two centers at which a circle of radius `small.radius` touches the
/// enclosing circle from inside and keeps a gap of [`FRONT_GAP`] to `prev`.
/// The point with the larger x coordinate comes first. `None` when `prev` is
/// not placed, when the enclosing circle has no room for `small`, or when no
/// such pair of points exists.
pub fn center_of_small_circle_touch_main(
    prev: &Circle,
    small: &Circle,
    main_radius: i64,
) -> (r: Option<(Point, Point)>)
    requires
        prev.wf(),
        small.wf(),
        0 <= prev.radius,
        0 <= small.radius,
        in_limit(main_radius as int),
    ensures
        r == rim_seats(*prev, small.radius as int, main_radius as int),
        r matches Some((a, b)) ==> a.wf() && b.wf() && a.x >= b.x,
        prev.center.is_none() ==> r.is_none(),
        main_radius < small.radius ==> r.is_none(),
{
    match &prev.center {
        Some(pc) => {
            if main_radius < small.radius {
                return None;
            }
            let origin = Point { x: 0, y: 0 };
            let dc = main_radius - small.radius;
            let dq = small.radius + prev.radius + FRONT_GAP;
            match circle_intersections(origin, dc, *pc, dq) {
                Some((a, b)) => {
                    if a.x >= b.x {
                        Some((a, b))
                    } else {
                        Some((b, a))
                    }
                },
                None => None,
            }
        },
        None => None,
    }
}

/// The center closest to the origin at which a circle of radius `r3` touches
/// both `c1` and `c2` from outside (with [`PAIR_SLACK`] added to both
/// distances). `None` when either circle is not placed, when their centers are
/// farther apart than `2 r3 + r1 + r2` or coincide, or when no such point exists.
pub fn closest_center_to_two_touching_circles(c1: &Circle, c2: &Circle, r3: i64) -> (r: Option<
    Point,
>)
    requires
        c1.wf(),
        c2.wf(),
        0 <= c1.radius,
        0 <= c2.radius,
        0 <= r3 <= COORD_LIMIT,
    ensures
        r == pair_seat(*c1, *c2, r3 as int),
        r matches Some(p) ==> p.wf(),
        c1.center.is_none() || c2.center.is_none() ==> r.is_none(),
        (c1.center matches Some(p1) && c2.center matches Some(p2) && crate::point::dist2(p1, p2) > (2
            * r3 + c1.radius + c2.radius) * (2 * r3 + c1.radius + c2.radius)) ==> r.is_none(),
{
    match (&c1.center, &c2.center) {
        (Some(p1), Some(p2)) => {
            let reach: i128 = 2 * r3 as i128 + c1.radius as i128 + c2.radius as i128;
            proof {
                lemma_square_bound(reach as int, 4 * COORD_LIMIT);
            }
            if squared_distance(p1, p2) > reach * reach {
                return None;
            }
            let d1 = c1.radius + r3 + PAIR_SLACK;
            let d2 = c2.radius + r3 + PAIR_SLACK;
            match circle_intersections(*p1, d1, *p2, d2) {
                Some((a, b)) => {
                    let (lo, hi) = if a.x <= b.x {
                        (a, b)
                    } else {
                        (b, a)
                    };
                    let nlo = crate::point::squared_norm(&lo);
                    let nhi = crate::point::squared_norm(&hi);
                    if nlo < nhi {
                        Some(lo)
                    } else {
                        Some(hi)
                    }
                },
                None => None,
            }
        },
        _ => None,
    }
}

/// `dist * t / TRIG_ONE`, rounded toward zero.
pub open spec fn toward_zero(dist: int, t: int) -> int {
    if t < 0 {
        -(dist * (-t) / TRIG_ONE as int)
    } else {
        dist * t / TRIG_ONE as int
    }
}

/// The point of [`get_rotated_point`].
pub open spec fn rotated_of(dist: int, angle: int) -> Point {
    Point {
        x: toward_zero(dist, sin_cos_of(angle).0) as i64,
        y: toward_zero(dist, sin_cos_of(angle).1) as i64,
    }
}

/// The angle of [`extra_angle`].
pub open spec fn extra_of(r1: int, r2: int, main_radius: int) -> Option<int> {
    if sine_ok(r1, main_radius) && sine_ok(r2, main_radius) {
        Some(
            arcsin_of(r1 * TRIG_ONE / (main_radius - r1)) + arcsin_of(
                r2 * TRIG_ONE / (main_radius - r2),
            ),
        )
    } else {
        None
    }
}

/// Placing `c` into slot `i` when it lies inside and overlaps nothing:
/// whether it was placed, and the circles after.
pub open spec fn place_of(cs: Seq<Circle>, i: int, c: Circle, main_radius: int) -> (bool, Seq<Circle>) {
    if c.inside(main_radius) && !c.overlaps_any(cs) {
        (true, cs.update(i, c))
    } else {
        (false, cs)
    }
}

/// Bisection on the angle between `left` and `right` for the smallest angle at
/// which a circle of radius `ri` on the rim fits; `found` is the last fitting
/// circle and its angle.
pub open spec fn bisect_of(
    cs: Seq<Circle>,
    ri: i64,
    main_radius: int,
    left: int,
    right: int,
    found: Option<(Circle, int)>,
) -> Option<(Circle, int)>
    decreases right - left,
{
    if right - left < ANGLE_TOLERANCE {
        found
    } else {
        let mid = left + (right - left) / 2;
        let cand = Circle { center: Some(rotated_of(main_radius - ri - RIM_SLACK, mid)), radius: ri };
        if cand.inside(main_radius) && !cand.overlaps_any(cs) {
            bisect_of(cs, ri, main_radius, left, mid, Some((cand, mid)))
        } else {
            bisect_of(cs, ri, main_radius, mid, right, found)
        }
    }
}

/// The first stage from circle `index` on: each circle is sought on the rim
/// next to the last front circle; the circles, the front and the last angle.
pub open spec fn stage1_of(
    rad: Seq<i64>,
    main_radius: int,
    cs: Seq<Circle>,
    front: Seq<usize>,
    prev: int,
    index: int,
) -> (Seq<Circle>, Seq<usize>)
    decreases rad.len() - index,
{
    if index >= rad.len() || front.len() == 0 {
        (cs, front)
    } else {
        let last = front[front.len() - 1];
        let ri = rad[index];
        let next: (Seq<Circle>, Seq<usize>, int) = match extra_of(
            cs[last as int].radius as int,
            ri as int,
            main_radius,
        ) {
            Some(e) => if prev + e <= ANGLE_LIMIT {
                match bisect_of(cs, ri, main_radius, (prev + e) * 99 / 100, (prev + e) * 101 / 100, None) {
                    Some((c, a)) => {
                        let pl = place_of(cs, index, c, main_radius);
                        if pl.0 {
                            (pl.1, front.push(index as usize), a)
                        } else {
                            (cs, front, prev)
                        }
                    },
                    None => (cs, front, prev),
                }
            } else {
                (cs, front, prev)
            },
            None => (cs, front, prev),
        };
        stage1_of(rad, main_radius, next.0, next.1, next.2, index + 1)
    }
}

/// Seating one circle from `i` on against the rim next to front circle `anchor`.
pub open spec fn stage2_inner_of(cs: Seq<Circle>, n: int, anchor: int, main_radius: int, i: int, done: bool) -> Seq<Circle>
    decreases n - i,
{
    if i >= n || i >= cs.len() || done {
        cs
    } else if cs[i].center.is_some() {
        stage2_inner_of(cs, n, anchor, main_radius, i + 1, false)
    } else {
        match rim_seats(cs[anchor], cs[i].radius as int, main_radius) {
            Some((a, b)) => {
                let p1 = place_of(cs, i, Circle { center: Some(a), radius: cs[i].radius }, main_radius);
                if p1.0 {
                    stage2_inner_of(p1.1, n, anchor, main_radius, i + 1, true)
                } else {
                    let p2 = place_of(cs, i, Circle { center: Some(b), radius: cs[i].radius }, main_radius);
                    stage2_inner_of(p2.1, n, anchor, main_radius, i + 1, p2.0)
                }
            },
            None => stage2_inner_of(cs, n, anchor, main_radius, i + 1, false),
        }
    }
}

/// The second stage over the front circles from `p` on.
pub open spec fn stage2_of(cs: Seq<Circle>, front: Seq<usize>, main_radius: int, p: int) -> Seq<Circle>
    decreases front.len() - p,
{
    if p < 0 || p >= front.len() {
        cs
    } else {
        stage2_of(stage2_inner_of(cs, cs.len() as int, front[p] as int, main_radius, 0, false), front, main_radius, p + 1)
    }
}

/// Seating circle `i` between front circle `p` and the front circles `shift`
/// places further on (cyclically), for `shift` up to `top`.
pub open spec fn shift_of(
    cs: Seq<Circle>,
    front: Seq<usize>,
    p: int,
    i: int,
    main_radius: int,
    shift: int,
    top: int,
    done: bool,
) -> (Seq<Circle>, bool)
    decreases top + 1 - shift,
{
    if shift > top || done {
        (cs, done)
    } else {
        let len = front.len() as int;
        let q = if shift < len - p {
            p + shift
        } else {
            shift - (len - p)
        };
        let ri = cs[i].radius;
        match pair_seat(cs[front[p] as int], cs[front[q] as int], ri as int) {
            Some(pt) => {
                let pl = place_of(cs, i, Circle { center: Some(pt), radius: ri }, main_radius);
                shift_of(pl.1, front, p, i, main_radius, shift + 1, top, pl.0)
            },
            None => shift_of(cs, front, p, i, main_radius, shift + 1, top, false),
        }
    }
}

/// Seating one circle from `i` on between front circle `p` and its
/// neighbours; a circle placed joins the next front.
pub open spec fn pair_inner_of(
    cs: Seq<Circle>,
    front: Seq<usize>,
    next: Seq<usize>,
    p: int,
    main_radius: int,
    n: int,
    i: int,
    done: bool,
) -> (Seq<Circle>, Seq<usize>)
    decreases n - i,
{
    if i >= n || i >= cs.len() || done {
        (cs, next)
    } else if cs[i].center.is_some() {
        pair_inner_of(cs, front, next, p, main_radius, n, i + 1, false)
    } else {
        let top = if front.len() < 2 {
            front.len() as int
        } else {
            2
        };
        let sh = shift_of(cs, front, p, i, main_radius, 1, top, false);
        pair_inner_of(
            sh.0,
            front,
            if sh.1 {
                next.push(i as usize)
            } else {
                next
            },
            p,
            main_radius,
            n,
            i + 1,
            sh.1,
        )
    }
}

/// One pass of the third stage over the front circles from `p` on.
pub open spec fn pass_front_of(
    cs: Seq<Circle>,
    front: Seq<usize>,
    next: Seq<usize>,
    main_radius: int,
    p: int,
) -> (Seq<Circle>, Seq<usize>)
    decreases front.len() - p,
{
    if p < 0 || p >= front.len() {
        (cs, next)
    } else {
        let r = pair_inner_of(cs, front, next, p, main_radius, cs.len() as int, 0, false);
        pass_front_of(r.0, front, r.1, main_radius, p + 1)
    }
}

/// The third stage: passes while the front is not empty, at most `n` of them.
pub open spec fn stage3_of(cs: Seq<Circle>, front: Seq<usize>, main_radius: int, passes: int, n: int) -> Seq<Circle>
    decreases n - passes,
{
    if front.len() == 0 || passes >= n {
        cs
    } else {
        let r = pass_front_of(cs, front, Seq::empty(), main_radius, 0);
        stage3_of(r.0, r.1, main_radius, passes + 1, n)
    }
}

/// The outcome of [`pack_circles`]: the three stages from the first circle
/// at `(0, R - r0)`, and `None` when a circle is left unplaced or the
/// enclosing circle is smaller than the first circle.
pub open spec fn pack_of(rad: Seq<i64>, main_radius: int) -> Option<Seq<Circle>> {
    if main_radius < rad[0] {
        None
    } else {
        let cs0 = Seq::new(rad.len(), |k: int| Circle { center: None, radius: rad[k] });
        let first = Circle { center: Some(Point { x: 0, y: (main_radius - rad[0]) as i64 }), radius: rad[0] };
        let s1 = stage1_of(rad, main_radius, cs0.update(0, first), seq![0usize], 0, 1);
        let cs2 = stage2_of(s1.0, s1.1, main_radius, 0);
        let cs3 = stage3_of(cs2, s1.1, main_radius, 0, rad.len() as int);
        if forall|k: int| 0 <= k < cs3.len() ==> (#[trigger] cs3[k]).center.is_some() {
            Some(cs3)
        } else {
            None
        }
    }
}


/// Tries to pack circles of the given radii, in this order, into the enclosing
/// circle of radius `main_radius`.
///
/// The first circle touches the enclosing circle at angle zero. Each further
/// circle is first sought along the enclosing circle next to the last circle of
/// the front, by bisection on the angle; then unplaced circles are seated next
/// to each front circle against the enclosing circle; then, pass after pass,
/// between two front circles. `None` when some circle finds no place.
#[verifier::loop_isolation(false)]
#[verifier::rlimit(100)]
#[verifier::spinoff_prover]
pub fn pack_circles(radiuses: &Vec<i64>, main_radius: i64) -> (r: Option<Vec<Circle>>)
    requires
        radiuses.len() >= 1,
        radii_ok(radiuses@),
        in_limit(main_radius as int),
    ensures
        r matches Some(cs) ==> matches_radii(cs@, radiuses@) && valid_pack(main_radius as int, cs@)
            && all_wf(cs@),
        r matches Some(cs) ==> cs@[0].center == Some(
            Point { x: 0, y: (main_radius - radiuses@[0]) as i64 },
        ),
        (exists|k: int| 0 <= k < radiuses.len() && radiuses@[k] > main_radius) ==> r.is_none(),
        radiuses.len() == 1 && radiuses@[0] <= main_radius ==> r.is_some(),
        r matches Some(cs) ==> pack_of(radiuses@, main_radius as int) == Some(cs@),
        r is None ==> pack_of(radiuses@, main_radius as int) is None,
{
    let ghost rad = radiuses@;
    let ghost mr = main_radius as int;
    let n = radiuses.len();
    let mut circles: Vec<Circle> = Vec::new();
    let mut k: usize = 0;
    while k < n
        invariant
            k <= n,
            circles.len() == k,
            forall|j: int| 0 <= j < k ==> #[trigger] circles@[j] == (Circle { center: None, radius: radiuses@[j] }),
        decreases n - k,
    {
        circles.push(Circle::with_radius(radiuses[k]));
        k += 1;
    }
    if main_radius < radiuses[0] {
        return None;
    }
    let first = Circle::new(radiuses[0], Point { x: 0, y: main_radius - radiuses[0] });
    proof {
        let room: int = main_radius - radiuses@[0];
        assert(0 * 0 + room * room <= room * room) by (nonlinear_arith);
        assert(first.inside(main_radius as int));
        assert(!first.overlaps_any(circles@));
        lemma_place(circles@, 0, first, main_radius as int);
    }
    let ghost cs0 = Seq::new(rad.len(), |k: int| Circle { center: None, radius: rad[k] });
    assert(circles@ =~= cs0);
    circles.set(0, first);
    assert(in_progress(circles@, radiuses@, main_radius as int));
    assert(circles@[0] == first);
    let ghost pack_cs1 = circles@;

    let mut front: Vec<usize> = Vec::new();
    front.push(0);
    let mut prev_angle: i64 = 0;
    let mut index: usize = 1;
    let ghost s1_total = stage1_of(rad, mr, circles@, seq![0usize], 0, 1);
    assert(front@ =~= seq![0usize]);
    while index < n
        invariant
            stage1_of(rad, mr, circles@, front@, prev_angle as int, index as int) == s1_total,
            1 <= index <= n,
            circles.len() == n,
            in_progress(circles@, radiuses@, main_radius as int),
            circles@[0] == first,
            front_ok(front@, circles@),
            front.len() >= 1,
            0 <= prev_angle <= 2 * ANGLE_LIMIT,
            forall|j: int| index <= j < n ==> (#[trigger] circles@[j]).center.is_none(),
        decreases n - index,
    {
        let last = front[front.len() - 1];
        let ri = radiuses[index];
        match extra_angle(circles[last].radius, ri, main_radius) {
            Some(extra) => {
                let approx = prev_angle + extra;
                if approx <= ANGLE_LIMIT {
                    let mut left: i64 = approx * 99 / 100;
                    let mut right: i64 = approx * 101 / 100;
                    let mut found: Option<Circle> = None;
                    let mut found_angle: i64 = 0;
                    let ghost bis_total = bisect_of(circles@, ri, mr, left as int, right as int, None);
                    let ghost mut fnd: Option<(Circle, int)> = None;
                    while right - left >= ANGLE_TOLERANCE
                        invariant
                            bisect_of(circles@, ri, mr, left as int, right as int, fnd) == bis_total,
                            found is None <==> fnd is None,
                            found matches Some(c) ==> fnd == Some((c, found_angle as int)),
                            0 <= left <= right <= 2 * ANGLE_LIMIT,
                            0 <= found_angle <= 2 * ANGLE_LIMIT,
                            found matches Some(c) ==> c.wf() && c.radius == ri && c.inside(
                                main_radius as int,
                            ) && !c.overlaps_any(circles@),
                        decreases right - left,
                    {
                        let mid = left + (right - left) / 2;
                        let p = get_rotated_point(main_radius - ri - RIM_SLACK, mid);
                        let cand = Circle::new(ri, p);
                        if fits(&cand, &circles, main_radius) {
                            right = mid;
                            found = Some(cand);
                            found_angle = mid;
                            proof {
                                fnd = Some((cand, mid as int));
                            }
                        } else {
                            left = mid;
                        }
                    }
                    if let Some(c) = found {
                        assert(circles@.map_values(|x: Circle| x.radius) =~= radiuses@);
                        let placed = try_place(&mut circles, index, c, main_radius);
                        if placed {
                            front.push(index);
                            prev_angle = found_angle;
                        }
                    }
                }
            },
            None => {},
        }
        index += 1;
    }

    assert(circles@.len() == n);
    let ghost s2_total = stage2_of(circles@, front@, mr, 0);
    let ghost front1 = front@;
    let mut p: usize = 0;
    while p < front.len()
        invariant
            stage2_of(circles@, front@, mr, p as int) == s2_total,
            front@ == front1,
            circles.len() == n,
            in_progress(circles@, radiuses@, main_radius as int),
            circles@[0] == first,
            front_ok(front@, circles@),
        decreases front.len() - p,
    {
        let anchor = front[p];
        let mut i: usize = 0;
        let mut done = false;
        let ghost inner_total = stage2_inner_of(circles@, n as int, anchor as int, mr, 0, false);
        while i < n && !done
            invariant
                stage2_inner_of(circles@, n as int, anchor as int, mr, i as int, done) == inner_total,
                i <= n,
                circles.len() == n,
                anchor < n,
                circles@[anchor as int].center.is_some(),
                in_progress(circles@, radiuses@, main_radius as int),
            circles@[0] == first,
                front_ok(front@, circles@),
            decreases n - i,
        {
            if circles[i].center.is_none() {
                assert(circles@[i as int].wf() && circles@[anchor as int].wf());
                match center_of_small_circle_touch_main(&circles[anchor], &circles[i], main_radius) {
                    Some((a, b)) => {
                        let ri = circles[i].radius;
                        assert(circles@.map_values(|x: Circle| x.radius) =~= radiuses@);
                        if try_place(&mut circles, i, Circle::new(ri, a), main_radius) {
                            done = true;
                        } else if try_place(&mut circles, i, Circle::new(ri, b), main_radius) {
                            done = true;
                        }
                    },
                    None => {},
                }
            }
            i += 1;
        }
        p += 1;
    }

    // A pass that leaves a non-empty front has placed a circle, and at most
    // `n - 1` circles are left after the first one, so the count never cuts a
    // pass short; it only bounds the loop for the prover.
    let mut passes: usize = 0;
    let ghost s3_total = stage3_of(circles@, front@, mr, 0, n as int);
    while front.len() > 0 && passes < n
        invariant
            stage3_of(circles@, front@, mr, passes as int, n as int) == s3_total,
            circles.len() == n,
            in_progress(circles@, radiuses@, main_radius as int),
            circles@[0] == first,
            front_ok(front@, circles@),
        decreases n - passes,
    {
        let mut next: Vec<usize> = Vec::new();
        let len = front.len();
        let mut p: usize = 0;
        let ghost pf_total = pass_front_of(circles@, front@, next@, mr, 0);
        assert(next@ =~= Seq::<usize>::empty());
        while p < len
            invariant
                pass_front_of(circles@, front@, next@, mr, p as int) == pf_total,
                len == front.len(),
                len >= 1,
                circles.len() == n,
                in_progress(circles@, radiuses@, main_radius as int),
            circles@[0] == first,
                front_ok(front@, circles@),
                front_ok(next@, circles@),
            decreases len - p,
        {
            let mut i: usize = 0;
            let mut done = false;
            let ghost pi_total = pair_inner_of(circles@, front@, next@, p as int, mr, n as int, 0, false);
            while i < n && !done
                invariant
                    pair_inner_of(circles@, front@, next@, p as int, mr, n as int, i as int, done) == pi_total,
                    i <= n,
                    p < len,
                    len == front.len(),
                    circles.len() == n,
                    in_progress(circles@, radiuses@, main_radius as int),
            circles@[0] == first,
                    front_ok(front@, circles@),
                    front_ok(next@, circles@),
                decreases n - i,
            {
                if circles[i].center.is_none() {
                    let top: usize = if len < 2 {
                        len
                    } else {
                        2
                    };
                    let mut shift: usize = 1;
                    let ghost next0 = next@;
                    let ghost sh_total = shift_of(circles@, front@, p as int, i as int, mr, 1, top as int, false);
                    while shift <= top && !done
                        invariant
                            shift_of(circles@, front@, p as int, i as int, mr, shift as int, top as int, done) == sh_total,
                            next@ == (if done { next0.push(i) } else { next0 }),
                            top == (if len < 2 { len } else { 2 }),
                            shift >= 1,
                            p < len,
                            i < n,
                            top <= 2,
                            top <= len,
                            len == front.len(),
                            circles.len() == n,
                            in_progress(circles@, radiuses@, main_radius as int),
            circles@[0] == first,
                            front_ok(front@, circles@),
                            front_ok(next@, circles@),
                            !done ==> circles@[i as int].center.is_none(),
                        decreases top + 1 - shift,
                    {
                        let a = front[p];
                        let q = if shift < len - p {
                            p + shift
                        } else {
                            shift - (len - p)
                        };
                        let b = front[q];
                        assert(circles@[a as int].wf() && circles@[b as int].wf());
                        let ri = circles[i].radius;
                        match closest_center_to_two_touching_circles(&circles[a], &circles[b], ri) {
                            Some(pt) => {
                                assert(circles@.map_values(|x: Circle| x.radius) =~= radiuses@);
                                if try_place(&mut circles, i, Circle::new(ri, pt), main_radius) {
                                    next.push(i);
                                    done = true;
                                }
                            },
                            None => {},
                        }
                        shift += 1;
                    }
                }
                i += 1;
            }
            p += 1;
        }
        front = next;
        passes += 1;
    }

    let mut k: usize = 0;
    while k < n
        invariant
            k <= n,
            circles.len() == n,
            in_progress(circles@, radiuses@, main_radius as int),
            circles@[0] == first,
            forall|j: int| 0 <= j < k ==> (#[trigger] circles@[j]).center.is_some(),
        decreases n - k,
    {
        if circles[k].center.is_none() {
            assert(circles@ == s3_total);
            return None;
        }
        k += 1;
    }
    proof {
        assert(circles@ == s3_total);
        assert forall|j: int| 0 <= j < n implies #[trigger] circles@[j].inside(main_radius as int) by {
            assert(circles@[j].center.is_some());
        }
        assert forall|j: int| 0 <= j < n implies radiuses@[j] <= main_radius by {
            assert(circles@[j].inside(main_radius as int));
            assert(circles@[j].radius == radiuses@[j]);
        }
    }
    Some(circles)
}

/// Whether every circle lies inside the enclosing circle of radius
/// `main_radius` and no two circles overlap.
pub fn is_valid_pack(main_radius: i64, circles: &Vec<Circle>) -> (r: bool)
    requires
        in_limit(main_radius as int),
        all_wf(circles@),
    ensures
        r == valid_pack(main_radius as int, circles@),
{
    let n = circles.len();
    let mut k: usize = 0;
    while k < n
        invariant
            n == circles.len(),
            k <= n,
            in_limit(main_radius as int),
            all_wf(circles@),
            forall|j: int| 0 <= j < k ==> #[trigger] circles@[j].inside(main_radius as int),
        decreases n - k,
    {
        assert(circles@[k as int].wf());
        if !circles[k].is_inside_main_circle(main_radius) {
            return false;
        }
        k += 1;
    }
    let mut i: usize = 0;
    while i < n
        invariant
            n == circles.len(),
            i <= n,
            all_wf(circles@),
            forall|j: int| 0 <= j < n ==> #[trigger] circles@[j].inside(main_radius as int),
            forall|a: int, b: int|
                0 <= a < i && a < b < n ==> !(#[trigger] circles@[a]).overlaps(#[trigger] circles@[b]),
        decreases n - i,
    {
        let mut j: usize = i + 1;
        while j < n
            invariant
                n == circles.len(),
                i < n,
                i + 1 <= j <= n,
                all_wf(circles@),
                forall|a: int, b: int|
                    0 <= a < i && a < b < n ==> !(#[trigger] circles@[a]).overlaps(
                        #[trigger] circles@[b],
                    ),
                forall|b: int| i < b < j ==> !circles@[i as int].overlaps(#[trigger] circles@[b]),
            decreases n - j,
        {
            assert(circles@[i as int].wf() && circles@[j as int].wf());
            if circles[i].overlap(&circles[j]) {
                return false;
            }
            j += 1;
        }
        i += 1;
    }
    true
}

/// Sum of a sequence of integers.
pub open spec fn total(s: Seq<i64>) -> int
    decreases s.len(),
{
    if s.len() == 0 {
        0
    } else {
        total(s.drop_last()) + s.last()
    }
}

/// `v` rounded up to a whole number of units.
pub open spec fn ceil_units(v: int) -> int {
    (v + UNIT - 1) / (UNIT as int) * UNIT
}

/// The radii of a list of circles, in order.
pub open spec fn radii_of(cs: Seq<Circle>) -> Seq<i64> {
    cs.map_values(|c: Circle| c.radius)
}

/// Resolution of the bisection on the enclosing radius: 1e-4 units.
pub const RADIUS_TOLERANCE: i64 = 100;

/// Exchanging two entries keeps the multiset of a sequence.
proof fn lemma_swap_multiset(s: Seq<i64>, a: int, b: int)
    requires
        0 <= a < s.len(),
        0 <= b < s.len(),
    ensures
        s.update(a, s[b]).update(b, s[a]).to_multiset() == s.to_multiset(),
{
    broadcast use vstd::seq_lib::to_multiset_update;
    broadcast use vstd::seq_lib::group_to_multiset_ensures;
    broadcast use vstd::multiset::group_multiset_axioms;
    let s1 = s.update(a, s[b]);
    let m = s.to_multiset();
    assert(s.contains(s[a]) && s.contains(s[b]));
    assert(m.count(s[a]) > 0 && m.count(s[b]) > 0);
    assert(s1.to_multiset() == m.insert(s[b]).remove(s[a]));
    assert(s1.update(b, s[a]).to_multiset() == s1.to_multiset().insert(s[a]).remove(s1[b]));
    assert(s1[b] == s[b]);
    assert(s1.update(b, s[a]).to_multiset() =~= m);
}

/// Bisection on the enclosing radius between `left` and `right` with the
/// radii in the given order: the final right end and the last packing found.
pub open spec fn bisect_radius_of(rad: Seq<i64>, left: int, right: int, found: Option<Seq<Circle>>) -> (int, Option<Seq<Circle>>)
    decreases right - left,
{
    if right - left < RADIUS_TOLERANCE {
        (right, found)
    } else {
        let mid = left + (right - left) / 2;
        match pack_of(rad, mid) {
            Some(cs) => bisect_radius_of(rad, left, mid, Some(cs)),
            None => bisect_radius_of(rad, mid, right, found),
        }
    }
}

/// The widened radius of the first round of [`find_answer`], on the radii in
/// their given order.
pub open spec fn first_round_radius(rad: Seq<i64>) -> int {
    let right = bisect_radius_of(rad, 0, ceil_units(total(rad)), None).0;
    right + right / 1000
}

/// The first round of [`find_answer`] finds a packing whose widened radius
/// beats the starting bound and passes the validity check.
pub open spec fn first_round_succeeds(rad: Seq<i64>) -> bool {
    match bisect_radius_of(rad, 0, ceil_units(total(rad)), None).1 {
        Some(cs) => first_round_radius(rad) < ceil_units(total(rad)) && valid_pack(first_round_radius(rad), cs),
        None => false,
    }
}

/// Searches for a small enclosing radius.
///
/// Each round bisects, down to [`RADIUS_TOLERANCE`], on the smallest radius
/// for which [`pack_circles`] succeeds with the radii in their current order,
/// starting from the bracket `[0, ceil(sum of radii)]`. A packing found is
/// widened by a thousandth and kept when it beats the best radius so far and
/// passes [`is_valid_pack`]. Between rounds two radii, drawn by a generator
/// seeded with zero, exchange places.
///
/// Returns the best radius and packing; when no round found one, the radius
/// is the starting bound and the circles are all unplaced.
#[verifier::loop_isolation(false)]
#[verifier::rlimit(100)]
#[verifier::spinoff_prover]
pub fn find_answer(radiuses: &mut Vec<i64>, number_of_iterations: u32) -> (r: (i64, Vec<Circle>))
    requires
        old(radiuses).len() >= 1,
        radii_ok(old(radiuses)@),
        2 * (total(old(radiuses)@) + UNIT) <= COORD_LIMIT,
    ensures
        final(radiuses).len() == old(radiuses).len(),
        final(radiuses)@.to_multiset() == old(radiuses)@.to_multiset(),
        r.1.len() == old(radiuses).len(),
        all_wf(r.1@),
        in_limit(r.0 as int),
        r.0 <= ceil_units(total(old(radiuses)@)),
        (valid_pack(r.0 as int, r.1@) && radii_of(r.1@).to_multiset() == old(radiuses)@.to_multiset()
            && radii_ok(radii_of(r.1@))) || (r.0 == ceil_units(total(old(radiuses)@)) && forall|k: int|
            0 <= k < r.1.len() ==> #[trigger] r.1@[k] == Circle { center: None, radius: 0 }),
        number_of_iterations == 0 ==> final(radiuses)@ == old(radiuses)@,
        number_of_iterations >= 1 && first_round_succeeds(old(radiuses)@) ==> valid_pack(r.0 as int, r.1@)
            && r.0 <= first_round_radius(old(radiuses)@),
{
    let ghost start = old(radiuses)@;
    let n = radiuses.len();
    let mut sum: i128 = 0;
    let mut k: usize = 0;
    while k < n
        invariant
            k <= n,
            n == radiuses.len(),
            radiuses@ == start,
            sum == total(start.take(k as int)),
            0 <= sum <= k * COORD_LIMIT,
        decreases n - k,
    {
        assert(start.take(k + 1).drop_last() =~= start.take(k as int));
        assert(0 < start[k as int] <= COORD_LIMIT);
        sum = sum + radiuses[k] as i128;
        k += 1;
    }
    assert(start.take(n as int) =~= start);
    proof {
        lemma_div_bounds(sum + UNIT - 1, UNIT as int, 0, sum + UNIT - 1);
        assert((sum + UNIT - 1) / (UNIT as int) * UNIT <= sum + UNIT - 1) by {
            vstd::arithmetic::div_mod::lemma_fundamental_div_mod(sum + UNIT - 1, UNIT as int);
            vstd::arithmetic::div_mod::lemma_mod_bound(sum + UNIT - 1, UNIT as int);
        }
        assert(0 <= (sum + UNIT - 1) / (UNIT as int) * UNIT) by {
            vstd::arithmetic::div_mod::lemma_div_pos_is_pos(sum + UNIT - 1, UNIT as int);
        }
    }
    let mut main_radius: i64 = ((sum + UNIT as i128 - 1) / UNIT as i128 * UNIT as i128) as i64;
    let ghost bound = main_radius as int;
    assert(bound == ceil_units(total(start)));

    let mut answer: Vec<Circle> = Vec::new();
    let mut k: usize = 0;
    while k < n
        invariant
            k <= n,
            answer.len() == k,
            forall|j: int| 0 <= j < k ==> #[trigger] answer@[j] == (Circle { center: None, radius: 0 }),
        decreases n - k,
    {
        answer.push(Circle::empty());
        k += 1;
    }
    let mut new_circles: Vec<Circle> = Vec::new();
    let mut rng = seeded_rng(0);

    let mut round: u32 = 0;
    let ghost first_total = bisect_radius_of(start, 0, bound, None);
    assert(radiuses@ == start);
    while round < number_of_iterations
        invariant
            round == 0 ==> radiuses@ == start,
            round >= 1 && first_round_succeeds(start) ==> main_radius <= first_round_radius(start),
            round == 0 ==> new_circles.len() == 0 && main_radius == bound,
            round <= number_of_iterations,
            new_circles.len() == 0 || new_circles.len() == n,
            first_total == bisect_radius_of(start, 0, bound, None),
            radiuses.len() == n,
            radiuses@.to_multiset() == start.to_multiset(),
            radii_ok(radiuses@),
            answer.len() == n,
            all_wf(answer@),
            0 <= main_radius <= bound,
            bound == ceil_units(total(start)),
            2 * (bound + UNIT) <= COORD_LIMIT,
            (valid_pack(main_radius as int, answer@) && radii_of(answer@).to_multiset() == start.to_multiset()
                && radii_ok(radii_of(answer@))) || (main_radius == bound && forall|j: int|
                0 <= j < n ==> #[trigger] answer@[j] == (Circle { center: None, radius: 0 })),
            new_circles.len() == n ==> all_wf(new_circles@) && radii_of(new_circles@).to_multiset()
                == start.to_multiset() && radii_ok(radii_of(new_circles@)),
        decreases number_of_iterations - round,
    {
        let mut left: i64 = 0;
        let mut right: i64 = main_radius;
        let ghost mut fnd: Option<Seq<Circle>> = if new_circles.len() == n {
            Some(new_circles@)
        } else {
            None
        };
        while right - left >= RADIUS_TOLERANCE
            invariant
                round == 0 ==> bisect_radius_of(start, left as int, right as int, fnd) == first_total,
                round == 0 ==> radiuses@ == start && right <= bound,
                new_circles.len() == n <==> fnd is Some,
                fnd matches Some(f) ==> f == new_circles@,
                new_circles.len() == 0 || new_circles.len() == n,
                0 <= left <= right <= main_radius,
                radiuses.len() == n,
                radiuses@.to_multiset() == start.to_multiset(),
                radii_ok(radiuses@),
                new_circles.len() == n ==> all_wf(new_circles@) && radii_of(new_circles@).to_multiset()
                    == start.to_multiset() && radii_ok(radii_of(new_circles@)),
            decreases right - left,
        {
            let middle = left + (right - left) / 2;
            match pack_circles(radiuses, middle) {
                Some(circles) => {
                    right = middle;
                    proof {
                        fnd = Some(circles@);
                    }
                    proof {
                        assert(radii_of(circles@) =~= radiuses@);
                    }
                    new_circles = circles;
                },
                None => {
                    left = middle;
                },
            }
        }
        if new_circles.len() == n {
            let mut all_placed = true;
            let mut j: usize = 0;
            while j < n
                invariant
                    j <= n,
                    new_circles.len() == n,
                    all_placed == forall|q: int| 0 <= q < j ==> (#[trigger] new_circles@[q]).center.is_some(),
                decreases n - j,
            {
                if new_circles[j].center.is_none() {
                    all_placed = false;
                }
                j += 1;
                assert(all_placed == forall|q: int| 0 <= q < j ==> (#[trigger] new_circles@[q]).center.is_some());
            }
            proof {
                if round == 0 && first_round_succeeds(start) {
                    assert(first_total == (right as int, fnd));
                    assert forall|q: int| 0 <= q < n implies (#[trigger] new_circles@[q]).center.is_some() by {
                        assert(new_circles@[q].inside(first_round_radius(start)));
                    }
                }
            }
            if all_placed {
                proof {
                    lemma_div_bounds(right as int, 1000, 0, right as int);
                }
                let widened: i64 = right + right / 1000;
                if widened < main_radius && is_valid_pack(widened, &new_circles) {
                    main_radius = widened;
                    answer = new_circles.clone();
                    proof {
                        assert(answer@ =~= new_circles@);
                    }
                }
            }
        }
        let a = random_index(&mut rng, n);
        let b = random_index(&mut rng, n);
        let ghost before = radiuses@;
        let va = radiuses[a];
        let vb = radiuses[b];
        radiuses.set(a, vb);
        radiuses.set(b, va);
        proof {
            lemma_swap_multiset(before, a as int, b as int);
            assert(radiuses@ == before.update(a as int, before[b as int]).update(b as int, before[a as int]));
            assert forall|j: int| 0 <= j < n implies 0 < #[trigger] radiuses@[j] <= COORD_LIMIT by {
                if j == b {
                    assert(0 < before[a as int] <= COORD_LIMIT);
                } else if j == a {
                    assert(0 < before[b as int] <= COORD_LIMIT);
                } else {
                    assert(0 < before[j] <= COORD_LIMIT);
                }
            }
        }
        round += 1;
    }
    (main_radius, answer)
}

} // verus!
