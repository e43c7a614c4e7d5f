//! Fixed-point vectors and matrices for the r-algorithm. Every operation is
//! exact integer arithmetic on entries bounded by [`CAP`]; callers test the
//! bound with [`is_bounded`] first.
use vstd::prelude::*;
use crate::arith::{div_floor, isqrt, is_isqrt};
use crate::geometry::{lemma_sqrt_floor, sqrt_floor};
use crate::point::{in_limit, COORD_LIMIT};

verus! {

/// The fixed-point one of matrix entries and of unit vectors: 2^30.
pub const B_ONE: i128 = 1_073_741_824;

/// Largest magnitude of a vector or matrix entry that the operations accept: 2^50.
pub const CAP: i128 = 1_125_899_906_842_624;

/// Largest dimension that the operations accept.
pub const MAX_DIM: usize = 200_001;

/// Every entry lies within [`CAP`].
pub open spec fn bounded(v: Seq<i128>) -> bool {
    forall|k: int| 0 <= k < v.len() ==> -CAP <= #[trigger] v[k] <= CAP
}

/// `b` is an `m` by `m` matrix.
pub open spec fn is_square(b: Seq<Seq<i128>>, m: int) -> bool {
    &&& b.len() == m
    &&& forall|k: int| 0 <= k < m ==> (#[trigger] b[k]).len() == m
}

/// Every entry of the matrix lies within [`CAP`].
pub open spec fn mat_bounded(b: Seq<Seq<i128>>) -> bool {
    forall|k: int| 0 <= k < b.len() ==> bounded(#[trigger] b[k])
}

/// The rows of a matrix held as a vector of vectors.
pub open spec fn mat_view(b: Seq<Vec<i128>>) -> Seq<Seq<i128>> {
    b.map_values(|r: Vec<i128>| r@)
}

/// Dot product of the first `k` entries of `a` and `b`.
pub open spec fn dot_prefix(a: Seq<i128>, b: Seq<i128>, k: int) -> int
    decreases k,
{
    if k <= 0 {
        0
    } else {
        dot_prefix(a, b, k - 1) + a[k - 1] * b[k - 1]
    }
}

/// Dot product.
pub open spec fn dot(a: Seq<i128>, b: Seq<i128>) -> int {
    dot_prefix(a, b, a.len() as int)
}

/// Euclidean norm, rounded down.
pub open spec fn norm_of(v: Seq<i128>) -> int {
    sqrt_floor(dot(v, v))
}

/// Column `k` of `b`.
pub open spec fn column(b: Seq<Seq<i128>>, k: int) -> Seq<i128> {
    Seq::new(b.len(), |j: int| b[j][k])
}

/// The identity matrix of size `m`, scaled by [`B_ONE`].
pub open spec fn identity_of(m: int) -> Seq<Seq<i128>> {
    Seq::new(m as nat, |k: int| Seq::new(m as nat, |j: int| if j == k { B_ONE } else { 0 }))
}

/// `B v / B_ONE`, rounded down.
pub open spec fn mul_of(b: Seq<Seq<i128>>, v: Seq<i128>) -> Seq<i128> {
    Seq::new(b.len(), |k: int| (dot(b[k], v) / (B_ONE as int)) as i128)
}

/// `B^T v / B_ONE`, rounded down.
pub open spec fn tr_mul_of(b: Seq<Seq<i128>>, v: Seq<i128>) -> Seq<i128> {
    Seq::new(b.len(), |k: int| (dot(column(b, k), v) / (B_ONE as int)) as i128)
}

/// `v * num / den` entry by entry, rounded down.
pub open spec fn scale_of(v: Seq<i128>, num: int, den: int) -> Seq<i128> {
    Seq::new(v.len(), |k: int| (v[k] * num / den) as i128)
}

/// `a - b` entry by entry.
pub open spec fn difference_of(a: Seq<i128>, b: Seq<i128>) -> Seq<i128> {
    Seq::new(a.len(), |k: int| (a[k] - b[k]) as i128)
}

/// The point `x - h dx / B_ONE` (rounded down), or `None` when an entry
/// leaves the coordinate limit.
pub open spec fn step_of(x: Seq<i64>, h: int, dx: Seq<i128>) -> Option<Seq<i64>> {
    if forall|k: int| 0 <= k < x.len() ==> in_limit(#[trigger] x[k] - h * dx[k] / (B_ONE as int)) {
        Some(Seq::new(x.len(), |k: int| (x[k] - h * dx[k] / (B_ONE as int)) as i64))
    } else {
        None
    }
}

/// The space dilation `B + (1/alpha - 1) (B r) r^T` for a unit vector `r`
/// scaled by `B_ONE` and `alpha` in thousandths, rounded down; `None` when
/// `B r` leaves [`CAP`].
pub open spec fn dilate_of(b: Seq<Seq<i128>>, r: Seq<i128>, alpha: int) -> Option<Seq<Seq<i128>>> {
    let br = mul_of(b, r);
    if bounded(br) {
        Some(
            Seq::new(
                b.len(),
                |k: int|
                    Seq::new(
                        b.len(),
                        |j: int|
                            (b[k][j] + (1000 - alpha) * br[k] * r[j] / (alpha * B_ONE)) as i128,
                    ),
            ),
        )
    } else {
        None
    }
}

/// A dot product of bounded vectors of dimension `k` is at most `k CAP^2`.
proof fn lemma_dot_bound(a: Seq<i128>, b: Seq<i128>, k: int)
    requires
        0 <= k <= a.len(),
        k <= b.len(),
        bounded(a),
        bounded(b),
    ensures
        -(k * (CAP * CAP)) <= dot_prefix(a, b, k) <= k * (CAP * CAP),
    decreases k,
{
    if k > 0 {
        lemma_dot_bound(a, b, k - 1);
        let p = a[k - 1] * b[k - 1];
        assert(-(CAP * CAP) <= a[k - 1] * b[k - 1] <= CAP * CAP) by (nonlinear_arith)
            requires
                -CAP <= a[k - 1] <= CAP,
                -CAP <= b[k - 1] <= CAP,
        ;
        assert((k - 1) * (CAP * CAP) + CAP * CAP == k * (CAP * CAP)) by (nonlinear_arith);
    }
}

/// Whether every entry lies within [`CAP`].
pub fn is_bounded(v: &Vec<i128>) -> (r: bool)
    ensures
        r == bounded(v@),
{
    let mut k: usize = 0;
    while k < v.len()
        invariant
            k <= v.len(),
            forall|j: int| 0 <= j < k ==> -CAP <= #[trigger] v@[j] <= CAP,
        decreases v.len() - k,
    {
        if v[k] < -CAP || v[k] > CAP {
            return false;
        }
        k += 1;
    }
    true
}

/// Whether every entry of the matrix lies within [`CAP`].
pub fn is_mat_bounded(b: &Vec<Vec<i128>>) -> (r: bool)
    ensures
        r == mat_bounded(mat_view(b@)),
{
    let mut k: usize = 0;
    while k < b.len()
        invariant
            k <= b.len(),
            forall|j: int| 0 <= j < k ==> bounded(#[trigger] mat_view(b@)[j]),
        decreases b.len() - k,
    {
        assert(mat_view(b@)[k as int] == b@[k as int]@);
        if !is_bounded(&b[k]) {
            return false;
        }
        k += 1;
    }
    true
}

/// The identity matrix of size `m`, scaled by [`B_ONE`].
pub fn identity(m: usize) -> (b: Vec<Vec<i128>>)
    ensures
        mat_view(b@) == identity_of(m as int),
{
    let mut b: Vec<Vec<i128>> = Vec::new();
    let mut k: usize = 0;
    while k < m
        invariant
            k <= m,
            b.len() == k,
            mat_view(b@) == identity_of(m as int).take(k as int),
        decreases m - k,
    {
        let mut row: Vec<i128> = Vec::new();
        let mut j: usize = 0;
        while j < m
            invariant
                j <= m,
                k < m,
                row@ == identity_of(m as int)[k as int].take(j as int),
            decreases m - j,
        {
            row.push(if j == k {
                B_ONE
            } else {
                0
            });
            j += 1;
            assert(row@ =~= identity_of(m as int)[k as int].take(j as int));
        }
        assert(row@ =~= identity_of(m as int)[k as int]);
        let ghost rv = row@;
        let ghost before = b@;
        b.push(row);
        proof {
            assert(b@[k as int]@ == rv);
            assert forall|q: int| 0 <= q < k implies #[trigger] mat_view(b@)[q] == mat_view(before)[q] by {
                assert(b@[q] == before[q]);
            }
        }
        k += 1;
        assert(mat_view(b@) =~= identity_of(m as int).take(k as int));
    }
    assert(mat_view(b@) =~= identity_of(m as int));
    b
}

/// The dot product of bounded vectors.
pub fn dot_product(a: &Vec<i128>, b: &Vec<i128>) -> (r: i128)
    requires
        a.len() == b.len(),
        a.len() <= MAX_DIM,
        bounded(a@),
        bounded(b@),
    ensures
        r == dot(a@, b@),
        -(MAX_DIM * (CAP * CAP)) <= r <= MAX_DIM * (CAP * CAP),
{
    let mut acc: i128 = 0;
    let mut k: usize = 0;
    while k < a.len()
        invariant
            k <= a.len(),
            a.len() == b.len(),
            a.len() <= MAX_DIM,
            bounded(a@),
            bounded(b@),
            acc == dot_prefix(a@, b@, k as int),
        decreases a.len() - k,
    {
        proof {
            lemma_dot_bound(a@, b@, k as int);
            lemma_dot_bound(a@, b@, k + 1);
            assert((k + 1) * (CAP * CAP) <= MAX_DIM * (CAP * CAP)) by (nonlinear_arith)
                requires
                    k + 1 <= MAX_DIM,
            ;
        }
        acc = acc + a[k] * b[k];
        k += 1;
    }
    proof {
        lemma_dot_bound(a@, b@, a.len() as int);
        assert(a.len() * (CAP * CAP) <= MAX_DIM * (CAP * CAP)) by (nonlinear_arith)
            requires
                a.len() <= MAX_DIM,
        ;
    }
    acc
}

/// The Euclidean norm of a bounded vector, rounded down.
pub fn norm(v: &Vec<i128>) -> (r: i128)
    requires
        v.len() <= MAX_DIM,
        bounded(v@),
    ensures
        r == norm_of(v@),
        0 <= r < 0x1000_0000_0000_0000,
{
    let s = dot_product(v, v);
    proof {
        lemma_self_dot_nonneg(v@, v.len() as int);
    }
    let r = isqrt(s);
    proof {
        lemma_sqrt_floor(s as int, r as int);
        assert(r < 0x1000_0000_0000_0000) by (nonlinear_arith)
            requires
                is_isqrt(s as int, r as int),
                s <= MAX_DIM * (CAP * CAP),
        ;
    }
    r
}

proof fn lemma_self_dot_nonneg(v: Seq<i128>, k: int)
    requires
        0 <= k <= v.len(),
    ensures
        dot_prefix(v, v, k) >= 0,
    decreases k,
{
    if k > 0 {
        lemma_self_dot_nonneg(v, k - 1);
        assert(v[k - 1] * v[k - 1] >= 0) by (nonlinear_arith);
    }
}

/// `v * num / den` entry by entry, rounded down.
pub fn scale(v: &Vec<i128>, num: i128, den: i128) -> (r: Vec<i128>)
    requires
        den > 0,
        bounded(v@),
        -B_ONE <= num <= B_ONE,
    ensures
        r@ == scale_of(v@, num as int, den as int),
{
    let mut w: Vec<i128> = Vec::new();
    let mut k: usize = 0;
    while k < v.len()
        invariant
            k <= v.len(),
            den > 0,
            bounded(v@),
            -B_ONE <= num <= B_ONE,
            w@ == scale_of(v@, num as int, den as int).take(k as int),
        decreases v.len() - k,
    {
        assert(-(CAP * B_ONE) <= v@[k as int] * num <= CAP * B_ONE) by (nonlinear_arith)
            requires
                -CAP <= v@[k as int] <= CAP,
                -B_ONE <= num <= B_ONE,
        ;
        w.push(div_floor(v[k] * num, den));
        k += 1;
        assert(w@ =~= scale_of(v@, num as int, den as int).take(k as int));
    }
    assert(w@ =~= scale_of(v@, num as int, den as int));
    w
}

/// `a - b` entry by entry.
pub fn difference(a: &Vec<i128>, b: &Vec<i128>) -> (r: Vec<i128>)
    requires
        a.len() == b.len(),
        bounded(a@),
        bounded(b@),
    ensures
        r@ == difference_of(a@, b@),
{
    let mut w: Vec<i128> = Vec::new();
    let mut k: usize = 0;
    while k < a.len()
        invariant
            k <= a.len(),
            a.len() == b.len(),
            bounded(a@),
            bounded(b@),
            w@ == difference_of(a@, b@).take(k as int),
        decreases a.len() - k,
    {
        w.push(a[k] - b[k]);
        k += 1;
        assert(w@ =~= difference_of(a@, b@).take(k as int));
    }
    assert(w@ =~= difference_of(a@, b@));
    w
}

/// `B v / B_ONE`, or `B^T v / B_ONE` when `transpose` holds, rounded down.
pub fn mat_vec(b: &Vec<Vec<i128>>, v: &Vec<i128>, transpose: bool) -> (r: Vec<i128>)
    requires
        is_square(mat_view(b@), v.len() as int),
        v.len() <= MAX_DIM,
        mat_bounded(mat_view(b@)),
        bounded(v@),
    ensures
        transpose ==> r@ == tr_mul_of(mat_view(b@), v@),
        !transpose ==> r@ == mul_of(mat_view(b@), v@),
{
    let ghost bm = mat_view(b@);
    let ghost target = if transpose {
        tr_mul_of(bm, v@)
    } else {
        mul_of(bm, v@)
    };
    let m = v.len();
    let mut w: Vec<i128> = Vec::new();
    let mut k: usize = 0;
    while k < m
        invariant
            k <= m,
            m == v.len(),
            m <= MAX_DIM,
            bm == mat_view(b@),
            is_square(bm, m as int),
            mat_bounded(bm),
            bounded(v@),
            target == (if transpose { tr_mul_of(bm, v@) } else { mul_of(bm, v@) }),
            w@ == target.take(k as int),
        decreases m - k,
    {
        let ghost line = if transpose {
            column(bm, k as int)
        } else {
            bm[k as int]
        };
        assert(line.len() == m);
        assert(bounded(line)) by {
            assert forall|j: int| 0 <= j < line.len() implies -CAP <= #[trigger] line[j] <= CAP by {
                if transpose {
                    assert(bounded(bm[j]));
                    assert(bm[j].len() == m);
                } else {
                    assert(bounded(bm[k as int]));
                }
            }
        }
        let mut acc: i128 = 0;
        let mut j: usize = 0;
        while j < m
            invariant
                j <= m,
                k < m,
                m == v.len(),
                m <= MAX_DIM,
                bm == mat_view(b@),
                is_square(bm, m as int),
                line.len() == m,
                bounded(line),
                bounded(v@),
                line == (if transpose { column(bm, k as int) } else { bm[k as int] }),
                acc == dot_prefix(line, v@, j as int),
            decreases m - j,
        {
            proof {
                lemma_dot_bound(line, v@, j as int);
                lemma_dot_bound(line, v@, j + 1);
                assert((j + 1) * (CAP * CAP) <= MAX_DIM * (CAP * CAP)) by (nonlinear_arith)
                    requires
                        j + 1 <= MAX_DIM,
                ;
                assert(bm[j as int].len() == m && bm[k as int].len() == m);
            }
            let e = if transpose {
                b[j][k]
            } else {
                b[k][j]
            };
            assert(e == line[j as int]);
            acc = acc + e * v[j];
            j += 1;
        }
        proof {
            lemma_dot_bound(line, v@, m as int);
            assert(m * (CAP * CAP) <= MAX_DIM * (CAP * CAP)) by (nonlinear_arith)
                requires
                    m <= MAX_DIM,
            ;
            crate::arith::lemma_div_bounds(
                acc as int,
                B_ONE as int,
                -(MAX_DIM * (CAP * CAP)),
                MAX_DIM * (CAP * CAP),
            );
        }
        w.push(div_floor(acc, B_ONE));
        k += 1;
        assert(w@ =~= target.take(k as int));
    }
    assert(w@ =~= target);
    w
}

/// The step `x - h dx / B_ONE`, or `None` when an entry would leave the
/// coordinate limit.
pub fn step(x: &Vec<i64>, h: i128, dx: &Vec<i128>) -> (r: Option<Vec<i64>>)
    requires
        x.len() == dx.len(),
        -CAP <= h <= CAP,
        bounded(dx@),
    ensures
        r matches Some(y) ==> step_of(x@, h as int, dx@) == Some(y@) && y.len() == x.len() && forall|k: int|
            0 <= k < y.len() ==> in_limit(#[trigger] y@[k] as int),
        r is None ==> step_of(x@, h as int, dx@) is None,
{
    let ghost ys = Seq::new(x.len() as nat, |k: int| x@[k] - h * dx@[k] / (B_ONE as int));
    let mut y: Vec<i64> = Vec::new();
    let mut k: usize = 0;
    while k < x.len()
        invariant
            k <= x.len(),
            x.len() == dx.len(),
            -CAP <= h <= CAP,
            bounded(dx@),
            ys == Seq::new(x.len() as nat, |k: int| x@[k] - h * dx@[k] / (B_ONE as int)),
            y.len() == k,
            forall|q: int| 0 <= q < k ==> in_limit(#[trigger] ys[q]) && y@[q] == ys[q],
        decreases x.len() - k,
    {
        assert(-(CAP * CAP) <= h * dx@[k as int] <= CAP * CAP) by (nonlinear_arith)
            requires
                -CAP <= h <= CAP,
                -CAP <= dx@[k as int] <= CAP,
        ;
        let d = div_floor(h * dx[k], B_ONE);
        proof {
            crate::arith::lemma_div_bounds((h * dx@[k as int]) as int, B_ONE as int, -(CAP * CAP), CAP * CAP);
        }
        let v = x[k] as i128 - d;
        assert(v == ys[k as int]);
        if v < -(COORD_LIMIT as i128) || v > COORD_LIMIT as i128 {
            assert(!in_limit(ys[k as int]));
            return None;
        }
        y.push(v as i64);
        k += 1;
    }
    assert forall|q: int| 0 <= q < x.len() implies in_limit(#[trigger] x@[q] - h * dx@[q] / (B_ONE as int)) by {
        assert(in_limit(ys[q]));
    }
    assert forall|q: int| 0 <= q < x.len() implies y@[q] == #[trigger] (x@[q] - h * dx@[q] / (B_ONE as int)) as i64 by {
        assert(y@[q] == ys[q]);
    }
    assert(y@ =~= Seq::new(x.len() as nat, |k: int| (x@[k] - h * dx@[k] / (B_ONE as int)) as i64));
    assert forall|q: int| 0 <= q < y.len() implies in_limit(#[trigger] y@[q] as int) by {
        assert(in_limit(ys[q]));
    }
    Some(y)
}

/// The space dilation [`dilate_of`].
pub fn dilate(b: &Vec<Vec<i128>>, r: &Vec<i128>, alpha: u32) -> (nb: Option<Vec<Vec<i128>>>)
    requires
        is_square(mat_view(b@), r.len() as int),
        r.len() <= MAX_DIM,
        mat_bounded(mat_view(b@)),
        bounded(r@),
        1 <= alpha <= 1_000_000,
    ensures
        nb matches Some(c) ==> dilate_of(mat_view(b@), r@, alpha as int) == Some(mat_view(c@)),
        nb is None ==> dilate_of(mat_view(b@), r@, alpha as int) is None,
{
    let ghost bm = mat_view(b@);
    let m = r.len();
    let br = mat_vec(b, r, false);
    if !is_bounded(&br) {
        return None;
    }
    let coef: i128 = 1000 - alpha as i128;
    let den: i128 = alpha as i128 * B_ONE;
    let ghost target = Seq::new(
        bm.len(),
        |k: int| Seq::new(bm.len(), |j: int| (bm[k][j] + (1000 - alpha) * br@[k] * r@[j] / (alpha * B_ONE)) as i128),
    );
    let mut c: Vec<Vec<i128>> = Vec::new();
    let mut k: usize = 0;
    while k < m
        invariant
            k <= m,
            m == r.len(),
            br.len() == m,
            bm == mat_view(b@),
            is_square(bm, m as int),
            mat_bounded(bm),
            bounded(br@),
            bounded(r@),
            1 <= alpha <= 1_000_000,
            coef == 1000 - alpha,
            den == alpha * B_ONE,
            target == Seq::new(
                bm.len(),
                |k: int| Seq::new(bm.len(), |j: int| (bm[k][j] + (1000 - alpha) * br@[k] * r@[j] / (alpha * B_ONE)) as i128),
            ),
            mat_view(c@) == target.take(k as int),
            c.len() == k,
        decreases m - k,
    {
        let mut row: Vec<i128> = Vec::new();
        let mut j: usize = 0;
        while j < m
            invariant
                j <= m,
                k < m,
                m == r.len(),
                br.len() == m,
                bm == mat_view(b@),
                is_square(bm, m as int),
                mat_bounded(bm),
                bounded(br@),
                bounded(r@),
                1 <= alpha <= 1_000_000,
                coef == 1000 - alpha,
                den == alpha * B_ONE,
                target == Seq::new(
                    bm.len(),
                    |k: int| Seq::new(bm.len(), |j: int| (bm[k][j] + (1000 - alpha) * br@[k] * r@[j] / (alpha * B_ONE)) as i128),
                ),
                row@ == target[k as int].take(j as int),
            decreases m - j,
        {
            assert(bm[k as int].len() == m && bounded(bm[k as int]));
            let bk = br[k];
            let rj = r[j];
            assert(-1_000_000 <= coef <= 1000);
            assert(-(1_000_000 * CAP) <= coef * bk <= 1_000_000 * CAP) by (nonlinear_arith)
                requires
                    -1_000_000 <= coef <= 1000,
                    -CAP <= bk <= CAP,
            ;
            assert(-(1_000_000 * CAP * CAP) <= coef * bk * rj <= 1_000_000 * CAP * CAP) by (nonlinear_arith)
                requires
                    -1_000_000 <= coef <= 1000,
                    -CAP <= bk <= CAP,
                    -CAP <= rj <= CAP,
            ;
            assert(den >= B_ONE) by (nonlinear_arith)
                requires
                    den == alpha * B_ONE,
                    alpha >= 1,
            ;
            let t = div_floor(coef * bk * rj, den);
            proof {
                assert(-(1_000_000 * CAP * CAP) * den <= coef * bk * rj <= 1_000_000 * CAP * CAP * den) by (nonlinear_arith)
                    requires
                        -(1_000_000 * CAP * CAP) <= coef * bk * rj <= 1_000_000 * CAP * CAP,
                        den >= 1,
                ;
                crate::arith::lemma_div_bounds((coef * bk * rj) as int, den as int, -(1_000_000 * CAP * CAP), 1_000_000 * CAP * CAP);
            }
            assert(b@[k as int]@ == bm[k as int]);
            row.push(b[k][j] + t);
            j += 1;
            assert(row@ =~= target[k as int].take(j as int));
        }
        assert(row@ =~= target[k as int]);
        let ghost rv = row@;
        let ghost before = c@;
        c.push(row);
        proof {
            assert(c@[k as int]@ == rv);
            assert forall|q: int| 0 <= q < k implies #[trigger] mat_view(c@)[q] == mat_view(before)[q] by {
                assert(c@[q] == before[q]);
            }
        }
        k += 1;
        assert(mat_view(c@) =~= target.take(k as int));
    }
    assert(mat_view(c@) =~= target);
    Some(c)
}

} // verus!
