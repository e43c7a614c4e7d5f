//! Conversions between circle lists and configuration vectors.
use vstd::prelude::*;
use crate::circle::Circle;
use crate::point::Point;

verus! {

/// The configuration vector of placed circles inside an enclosing circle of
/// radius `main_radius`: x coordinates, y coordinates, radius.
pub open spec fn config_of(cs: Seq<Circle>, main_radius: i64) -> Seq<i64> {
    cs.map_values(|c: Circle| c.center.unwrap().x) + cs.map_values(|c: Circle| c.center.unwrap().y)
        + seq![main_radius]
}

/// The circles that a configuration vector places, with the given radii.
pub open spec fn circles_of(x: Seq<i64>, rad: Seq<i64>) -> Seq<Circle> {
    Seq::new(
        rad.len(),
        |k: int| Circle { center: Some(Point { x: x[k], y: x[rad.len() + k] }), radius: rad[k] },
    )
}

/// Every circle of the list is placed.
pub open spec fn all_placed(cs: Seq<Circle>) -> bool {
    forall|k: int| 0 <= k < cs.len() ==> (#[trigger] cs[k]).center.is_some()
}

/// The gradient vector `gx ++ gy ++ [gr]`.
pub fn concat_gradients(gx: &Vec<i128>, gy: &Vec<i128>, gr: i128) -> (r: Vec<i128>)
    ensures
        r@ == gx@ + gy@ + seq![gr],
{
    let mut r: Vec<i128> = Vec::new();
    let mut k: usize = 0;
    while k < gx.len()
        invariant
            k <= gx.len(),
            r@ == gx@.take(k as int),
        decreases gx.len() - k,
    {
        r.push(gx[k]);
        k += 1;
        assert(r@ =~= gx@.take(k as int));
    }
    let mut k: usize = 0;
    while k < gy.len()
        invariant
            k <= gy.len(),
            r@ == gx@ + gy@.take(k as int),
        decreases gy.len() - k,
    {
        r.push(gy[k]);
        k += 1;
        assert(r@ =~= gx@ + gy@.take(k as int));
    }
    r.push(gr);
    assert(r@ =~= gx@ + gy@ + seq![gr]);
    r
}

/// The configuration vector of a list of placed circles.
pub fn circles_to_dvector(circles: &Vec<Circle>, main_circle_radius: i64) -> (r: Vec<i64>)
    requires
        all_placed(circles@),
    ensures
        r@ == config_of(circles@, main_circle_radius),
{
    let n = circles.len();
    let mut r: Vec<i64> = Vec::new();
    let mut k: usize = 0;
    while k < n
        invariant
            k <= n,
            n == circles.len(),
            all_placed(circles@),
            r@ == circles@.take(k as int).map_values(|c: Circle| c.center.unwrap().x),
        decreases n - k,
    {
        let p = circles[k].center.unwrap();
        r.push(p.x);
        k += 1;
        assert(r@ =~= circles@.take(k as int).map_values(|c: Circle| c.center.unwrap().x));
    }
    let ghost xs = r@;
    let mut k: usize = 0;
    while k < n
        invariant
            k <= n,
            n == circles.len(),
            all_placed(circles@),
            r@ == xs + circles@.take(k as int).map_values(|c: Circle| c.center.unwrap().y),
        decreases n - k,
    {
        let p = circles[k].center.unwrap();
        r.push(p.y);
        k += 1;
        assert(r@ =~= xs + circles@.take(k as int).map_values(|c: Circle| c.center.unwrap().y));
    }
    r.push(main_circle_radius);
    assert(circles@.take(n as int) =~= circles@);
    assert(r@ =~= config_of(circles@, main_circle_radius));
    r
}

/// The enclosing radius and the circles of a configuration vector.
pub fn dvector_to_answer(x: &Vec<i64>, circles_radiuses: &Vec<i64>) -> (r: (i64, Vec<Circle>))
    requires
        x.len() == 2 * circles_radiuses.len() + 1,
    ensures
        r.0 == x@[x.len() - 1],
        r.1@ == circles_of(x@, circles_radiuses@),
{
    let n = circles_radiuses.len();
    let mut circles: Vec<Circle> = Vec::new();
    let mut k: usize = 0;
    while k < n
        invariant
            k <= n,
            n == circles_radiuses.len(),
            x.len() == 2 * n + 1,
            circles@ == circles_of(x@, circles_radiuses@).take(k as int),
        decreases n - k,
    {
        circles.push(Circle::new(circles_radiuses[k], Point { x: x[k], y: x[n + k] }));
        k += 1;
        assert(circles@ =~= circles_of(x@, circles_radiuses@).take(k as int));
    }
    assert(circles@ =~= circles_of(x@, circles_radiuses@));
    (get_last(x), circles)
}

/// The last entry of a configuration vector: the enclosing radius.
pub fn get_last(d: &Vec<i64>) -> (r: i64)
    requires
        d.len() >= 1,
    ensures
        r == d@[d.len() - 1],
{
    d[d.len() - 1]
}

/// Turning placed circles into a configuration vector and back gives the same
/// radius and the same circles.
pub proof fn lemma_config_round_trip(cs: Seq<Circle>, main_radius: i64)
    requires
        all_placed(cs),
    ensures
        config_of(cs, main_radius)[2 * cs.len() as int] == main_radius,
        circles_of(config_of(cs, main_radius), cs.map_values(|c: Circle| c.radius)) =~= cs,
{
    let x = config_of(cs, main_radius);
    let n = cs.len() as int;
    assert forall|k: int| 0 <= k < n implies x[k] == cs[k].center.unwrap().x && x[n + k]
        == cs[k].center.unwrap().y by {
        assert(cs[k].center.is_some());
    }
}

} // verus!
