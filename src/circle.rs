//! Circles that are either placed at a center or not yet placed.
use vstd::prelude::*;
use crate::point::{
    Point, COORD_LIMIT, in_limit, dist2, norm2, lemma_square_bound, squared_distance, squared_norm,
};

verus! {

/// A circle of the packing. `center` is `None` while the circle is not placed.
#[derive(Clone, Copy, Debug, PartialEq, Eq, Structural)]
pub struct Circle {
    pub center: Option<Point>,
    pub radius: i64,
}

/// Every circle of the list lies within the coordinate limit.
pub open spec fn all_wf(circles: Seq<Circle>) -> bool {
    forall|k: int| 0 <= k < circles.len() ==> #[trigger] circles[k].wf()
}

impl Circle {
    /// Radius and center lie within the coordinate limit.
    pub open spec fn wf(self) -> bool {
        &&& in_limit(self.radius as int)
        &&& match self.center {
            Some(c) => c.wf(),
            None => true,
        }
    }

    /// Both circles are placed and the distance of their centers is at most the
    /// sum of their radii: touching circles overlap.
    pub open spec fn overlaps(self, other: Circle) -> bool {
        match (self.center, other.center) {
            (Some(p), Some(q)) => {
                let s = self.radius + other.radius;
                s >= 0 && dist2(p, q) <= s * s
            },
            _ => false,
        }
    }

    /// The circle is placed and its center lies at distance at most
    /// `main_radius - radius` from the origin.
    pub open spec fn inside(self, main_radius: int) -> bool {
        match self.center {
            Some(p) => {
                let room = main_radius - self.radius;
                room >= 0 && norm2(p) <= room * room
            },
            None => false,
        }
    }

    /// The circle overlaps some circle of the list.
    pub open spec fn overlaps_any(self, circles: Seq<Circle>) -> bool {
        exists|k: int| 0 <= k < circles.len() && self.overlaps(#[trigger] circles[k])
    }

    /// An unplaced circle of radius zero.
    pub fn empty() -> (c: Circle)
        ensures
            c.center.is_none(),
            c.radius == 0,
    {
        Circle { center: None, radius: 0 }
    }

    /// A circle placed at `center`.
    pub fn new(radius: i64, center: Point) -> (c: Circle)
        ensures
            c.center == Some(center),
            c.radius == radius,
    {
        Circle { center: Some(center), radius }
    }

    /// An unplaced circle of the given radius.
    pub fn with_radius(radius: i64) -> (c: Circle)
        ensures
            c.center.is_none(),
            c.radius == radius,
    {
        Circle { center: None, radius }
    }

    /// Whether the two circles overlap (touching counts as overlapping).
    pub fn overlap(&self, other: &Circle) -> (r: bool)
        requires
            self.wf(),
            other.wf(),
        ensures
            r == self.overlaps(*other),
    {
        match (&self.center, &other.center) {
            (Some(p), Some(q)) => {
                let s = self.radius as i128 + other.radius as i128;
                if s < 0 {
                    return false;
                }
                proof {
                    lemma_square_bound(s as int, 2 * COORD_LIMIT);
                }
                squared_distance(p, q) <= s * s
            },
            _ => false,
        }
    }

    /// Whether the circle overlaps any circle of the list.
    pub fn is_overlap(&self, circles: &Vec<Circle>) -> (r: bool)
        requires
            self.wf(),
            all_wf(circles@),
        ensures
            r == self.overlaps_any(circles@),
    {
        let mut k: usize = 0;
        while k < circles.len()
            invariant
                self.wf(),
                all_wf(circles@),
                k <= circles.len(),
                forall|j: int| 0 <= j < k ==> !self.overlaps(#[trigger] circles@[j]),
            decreases circles.len() - k,
        {
            if self.overlap(&circles[k]) {
                return true;
            }
            k += 1;
        }
        false
    }

    /// Whether the circle is placed and lies within the enclosing circle of
    /// radius `main_radius` (touching it from inside counts as inside).
    pub fn is_inside_main_circle(&self, main_radius: i64) -> (r: bool)
        requires
            self.wf(),
            in_limit(main_radius as int),
        ensures
            r == self.inside(main_radius as int),
    {
        match &self.center {
            Some(p) => {
                let room = main_radius as i128 - self.radius as i128;
                if room < 0 {
                    return false;
                }
                proof {
                    lemma_square_bound(room as int, 2 * COORD_LIMIT);
                }
                squared_norm(p) <= room * room
            },
            None => false,
        }
    }
}

/// Overlap is symmetric: `a` overlaps `b` exactly when `b` overlaps `a`.
pub proof fn lemma_overlap_symmetric(a: Circle, b: Circle)
    ensures
        a.overlaps(b) == b.overlaps(a),
{
    if let (Some(p), Some(q)) = (a.center, b.center) {
        assert(dist2(p, q) == dist2(q, p)) by (nonlinear_arith);
    }
}

/// A placed circle whose center lies at distance exactly `main_radius - radius`
/// from the origin counts as inside the enclosing circle.
pub proof fn lemma_inside_on_boundary(c: Circle, main_radius: int)
    requires
        c.center.is_some(),
        main_radius - c.radius >= 0,
        norm2(c.center.unwrap()) == (main_radius - c.radius) * (main_radius - c.radius),
    ensures
        c.inside(main_radius),
{
}

} // verus!
