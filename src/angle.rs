//! Fixed-point angles and the trigonometric functions that the packer needs.
//!
//! Angles are in nanoradians; sines and cosines are scaled by [`TRIG_ONE`].
use vstd::prelude::*;
use crate::arith::lemma_div_bounds;

verus! {

/// The fixed-point value of one, for sines and cosines and for angles in radians.
pub const TRIG_ONE: i128 = 1_000_000_000;

/// Half of pi, in nanoradians.
pub const HALF_PI: i64 = 1_570_796_327;

/// Pi, in nanoradians.
pub const PI: i64 = 3_141_592_654;

/// Two pi, in nanoradians.
pub const TWO_PI: i64 = 6_283_185_307;

/// `v` lies in `[-TRIG_ONE, TRIG_ONE]`.
pub open spec fn unit_range(v: int) -> bool {
    -TRIG_ONE <= v <= TRIG_ONE
}

/// Horner's rule for the truncated series: with `p` the value so far and `k`
/// the next term, `1 - (p w / ONE) / den(k)`, down to `k = 1`.
pub open spec fn horner_of(w: int, sine: bool, k: int, p: int) -> int
    decreases k,
{
    if k <= 0 {
        p
    } else {
        let den = if sine {
            (2 * k) * (2 * k + 1)
        } else {
            (2 * k - 1) * (2 * k)
        };
        let t = (p * w / TRIG_ONE as int) / den;
        if k == 1 {
            TRIG_ONE - t
        } else {
            horner_of(w, sine, k - 1, TRIG_ONE - t)
        }
    }
}

/// Sine and cosine of `v` in `[0, pi/2]`, in fixed point: `v` times the sine
/// series (capped at one) and the cosine series, both in `v^2`.
pub open spec fn quadrant_of(v: int) -> (int, int) {
    let w = v * v / TRIG_ONE as int;
    let s = v * horner_of(w, true, 8, TRIG_ONE as int) / TRIG_ONE as int;
    (if s > TRIG_ONE {
        TRIG_ONE as int
    } else {
        s
    }, horner_of(w, false, 8, TRIG_ONE as int))
}

/// Sine and cosine of a non-negative angle, by reduction to the first quadrant.
pub open spec fn sin_cos_of(theta: int) -> (int, int) {
    let t = theta % (TWO_PI as int);
    if t <= HALF_PI {
        quadrant_of(t)
    } else if t <= PI {
        (quadrant_of(PI - t).0, -quadrant_of(PI - t).1)
    } else if t <= PI + HALF_PI {
        (-quadrant_of(t - PI).0, -quadrant_of(t - PI).1)
    } else {
        (-quadrant_of(TWO_PI - t).0, quadrant_of(TWO_PI - t).1)
    }
}

/// Bisection for the arcsine of `s` between `lo` and `hi`.
pub open spec fn arcsin_between(s: int, lo: int, hi: int) -> int
    decreases hi - lo,
{
    if hi - lo <= 1 {
        lo
    } else {
        let mid = lo + (hi - lo) / 2;
        if sin_cos_of(mid).0 <= s {
            arcsin_between(s, mid, hi)
        } else {
            arcsin_between(s, lo, mid)
        }
    }
}

/// Arcsine of `s / TRIG_ONE`, in nanoradians.
pub open spec fn arcsin_of(s: int) -> int {
    arcsin_between(s, 0, HALF_PI as int)
}

/// Evaluates `1 - w/d1 (1 - w/d2 (1 - ...))` by Horner's rule, where
/// `w = v * v` and the divisors are `den(k)` for `k` from `last` down to `1`.
fn horner(w: i128, sine: bool) -> (p: i128)
    requires
        0 <= w <= 3 * TRIG_ONE,
    ensures
        -TRIG_ONE <= p <= TRIG_ONE,
        sine ==> 0 <= p,
        p == horner_of(w as int, sine, 8, TRIG_ONE as int),
{
    let mut p: i128 = TRIG_ONE;
    let mut k: i128 = 8;
    while k >= 1
        invariant
            0 <= k <= 8,
            0 <= w <= 3 * TRIG_ONE,
            0 <= p <= TRIG_ONE,
            k >= 1,
            horner_of(w as int, sine, k as int, p as int) == horner_of(w as int, sine, 8, TRIG_ONE as int),
        decreases k,
    {
        let k2: i128 = 2 * k;
        assert(2 <= k2 * (k2 + 1) <= 272 && 0 <= (k2 - 1) * k2 <= 240) by (nonlinear_arith)
            requires
                k2 == 2 * k,
                1 <= k <= 8,
        ;
        let den: i128 = if sine {
            k2 * (k2 + 1)
        } else {
            (k2 - 1) * k2
        };
        assert(den >= 2 && (k >= 2 ==> den >= 12) && (sine ==> den >= 6)) by (nonlinear_arith)
            requires
                k2 == 2 * k,
                k >= 1,
                den == (if sine { k2 * (k2 + 1) } else { (k2 - 1) * k2 }),
        ;
        assert(0 <= p * w <= TRIG_ONE * (3 * TRIG_ONE)) by (nonlinear_arith)
            requires
                0 <= p <= TRIG_ONE,
                0 <= w <= 3 * TRIG_ONE,
        ;
        let pw = p * w / TRIG_ONE;
        proof {
            lemma_div_bounds((p * w) as int, TRIG_ONE as int, 0, 3 * TRIG_ONE);
        }
        let t = pw / den;
        proof {
            let hb: int = if k >= 2 {
                TRIG_ONE / 4
            } else if sine {
                TRIG_ONE / 2
            } else {
                3 * TRIG_ONE / 2
            };
            assert(pw <= hb * den) by (nonlinear_arith)
                requires
                    0 <= pw <= 3 * TRIG_ONE,
                    den >= 2,
                    k >= 2 ==> den >= 12,
                    sine ==> den >= 6,
                    hb == (if k >= 2 { TRIG_ONE / 4 } else if sine { TRIG_ONE / 2 } else { 3 * TRIG_ONE / 2 }),
            ;
            lemma_div_bounds(pw as int, den as int, 0, hb);
        }
        if k == 1 {
            return TRIG_ONE - t;
        }
        p = TRIG_ONE - t;
        k = k - 1;
    }
    p
}

/// Sine and cosine of an angle of the first quadrant.
fn sin_cos_quadrant(v: i128) -> (r: (i128, i128))
    requires
        0 <= v <= HALF_PI,
    ensures
        0 <= r.0 <= TRIG_ONE,
        unit_range(r.1 as int),
        (r.0 as int, r.1 as int) == quadrant_of(v as int),
{
    assert(0 <= v * v <= HALF_PI * HALF_PI) by (nonlinear_arith)
        requires
            0 <= v <= HALF_PI,
    ;
    let w = v * v / TRIG_ONE;
    proof {
        lemma_div_bounds((v * v) as int, TRIG_ONE as int, 0, 3 * TRIG_ONE);
    }
    let ps = horner(w, true);
    let pc = horner(w, false);
    assert(0 <= v * ps <= HALF_PI * TRIG_ONE) by (nonlinear_arith)
        requires
            0 <= v <= HALF_PI,
            0 <= ps <= TRIG_ONE,
    ;
    let s = v * ps / TRIG_ONE;
    proof {
        lemma_div_bounds((v * ps) as int, TRIG_ONE as int, 0, 2 * TRIG_ONE);
    }
    let s = if s > TRIG_ONE {
        TRIG_ONE
    } else {
        s
    };
    (s, pc)
}

/// Sine and cosine of a non-negative angle, in fixed point.
pub fn sin_cos(theta: i64) -> (r: (i128, i128))
    requires
        0 <= theta,
    ensures
        unit_range(r.0 as int),
        unit_range(r.1 as int),
        (r.0 as int, r.1 as int) == sin_cos_of(theta as int),
{
    let t = (theta % TWO_PI) as i128;
    if t <= HALF_PI as i128 {
        sin_cos_quadrant(t)
    } else if t <= PI as i128 {
        let (s, c) = sin_cos_quadrant(PI as i128 - t);
        (s, -c)
    } else if t <= PI as i128 + HALF_PI as i128 {
        let (s, c) = sin_cos_quadrant(t - PI as i128);
        (-s, -c)
    } else {
        let (s, c) = sin_cos_quadrant(TWO_PI as i128 - t);
        (-s, c)
    }
}

/// Arcsine of `s / TRIG_ONE` for `0 <= s <= TRIG_ONE`, in nanoradians, found by
/// bisection on the sine.
pub fn arcsin(s: i128) -> (a: i64)
    requires
        0 <= s <= TRIG_ONE,
    ensures
        0 <= a < HALF_PI,
        a == arcsin_of(s as int),
        a == 0 || sin_cos_of(a as int).0 <= s,
        a + 1 == HALF_PI || sin_cos_of(a + 1).0 > s,
{
    let mut lo: i64 = 0;
    let mut hi: i64 = HALF_PI;
    while hi - lo > 1
        invariant
            0 <= lo < hi <= HALF_PI,
            arcsin_between(s as int, lo as int, hi as int) == arcsin_of(s as int),
            lo == 0 || sin_cos_of(lo as int).0 <= s,
            hi == HALF_PI || sin_cos_of(hi as int).0 > s,
        decreases hi - lo,
    {
        let mid = lo + (hi - lo) / 2;
        let (sm, _) = sin_cos(mid);
        if sm <= s {
            lo = mid;
        } else {
            hi = mid;
        }
    }
    lo
}

} // verus!
