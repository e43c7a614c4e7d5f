//! Integer helpers: floor division and integer square root.
use vstd::prelude::*;

verus! {

/// Largest value that [`isqrt`] accepts.
pub const SQRT_INPUT_LIMIT: i128 = 0x1000_0000_0000_0000_0000_0000_0000_0000;

/// `r` is the integer square root of `v`: the largest `r` with `r * r <= v`.
pub open spec fn is_isqrt(v: int, r: int) -> bool {
    0 <= r && r * r <= v && v < (r + 1) * (r + 1)
}

/// Integer square root, rounded down.
pub fn isqrt(v: i128) -> (r: i128)
    requires
        0 <= v < SQRT_INPUT_LIMIT,
    ensures
        is_isqrt(v as int, r as int),
{
    let mut lo: i128 = 0;
    let mut hi: i128 = 0x4000_0000_0000_0000;
    assert(hi * hi == SQRT_INPUT_LIMIT);
    while hi - lo > 1
        invariant
            0 <= lo < hi <= 0x4000_0000_0000_0000,
            lo * lo <= v,
            v < hi * hi,
        decreases hi - lo,
    {
        let mid = lo + (hi - lo) / 2;
        assert(0 <= mid * mid <= 0x4000_0000_0000_0000 * 0x4000_0000_0000_0000) by (nonlinear_arith)
            requires
                0 <= mid <= 0x4000_0000_0000_0000,
        ;
        if mid * mid <= v {
            lo = mid;
        } else {
            hi = mid;
        }
    }
    lo
}

/// Division rounded towards negative infinity.
pub fn div_floor(a: i128, b: i128) -> (q: i128)
    requires
        b > 0,
    ensures
        q == a / b,
{
    if a >= 0 {
        a / b
    } else {
        let m = (-(a + 1)) / b;
        proof {
            let am: int = -(a + 1);
            let bb: int = b as int;
            vstd::arithmetic::div_mod::lemma_fundamental_div_mod(am, bb);
            vstd::arithmetic::div_mod::lemma_mod_bound(am, bb);
            let rm: int = am % bb;
            assert(a == bb * (-(m as int) - 1) + (bb - 1 - rm)) by (nonlinear_arith)
                requires
                    am == bb * (m as int) + rm,
                    am == -(a + 1),
            ;
            vstd::arithmetic::div_mod::lemma_fundamental_div_mod_converse(
                a as int,
                bb,
                -(m as int) - 1,
                bb - 1 - rm,
            );
        }
        -m - 1
    }
}

} // verus!

verus! {

/// Bounds a quotient: `lo * b <= a <= hi * b` gives `lo <= a / b <= hi`.
pub proof fn lemma_div_bounds(a: int, b: int, lo: int, hi: int)
    requires
        b > 0,
        lo * b <= a <= hi * b,
    ensures
        lo <= a / b <= hi,
{
    vstd::arithmetic::div_mod::lemma_div_is_ordered(lo * b, a, b);
    vstd::arithmetic::div_mod::lemma_div_is_ordered(a, hi * b, b);
    vstd::arithmetic::div_mod::lemma_div_multiples_vanish(lo, b);
    vstd::arithmetic::div_mod::lemma_div_multiples_vanish(hi, b);
    assert(lo * b == b * lo && hi * b == b * hi) by (nonlinear_arith);
}

} // verus!
