//! Finite sums of integer-valued terms, with the manipulation lemmas
//! (splitting, pointwise rewriting, linearity, bounds, congruence,
//! exchange of summation order) used by the ring arithmetic proofs.

use vstd::prelude::*;

verus! {

use vstd::arithmetic::div_mod::lemma_add_mod_noop;
use vstd::arithmetic::mul::lemma_mul_is_distributive_add_other_way;
use vstd::arithmetic::mul::lemma_mul_is_distributive_add;

/// The sum of `f(lo) + f(lo+1) + ... + f(hi-1)`; zero when `lo >= hi`.
pub open spec fn sum_terms(lo: int, hi: int, f: spec_fn(int) -> int) -> int
    decreases hi - lo,
{
    if lo >= hi {
        0
    } else {
        f(lo) + sum_terms(lo + 1, hi, f)
    }
}

pub proof fn lemma_sum_split(lo: int, mid: int, hi: int, f: spec_fn(int) -> int)
    requires
        lo <= mid <= hi,
    ensures
        sum_terms(lo, hi, f) == sum_terms(lo, mid, f) + sum_terms(mid, hi, f),
    decreases mid - lo,
{
    if lo < mid {
        lemma_sum_split(lo + 1, mid, hi, f);
    }
}

/// Peel the last term off a non-empty sum.
pub proof fn lemma_sum_pop_back(lo: int, hi: int, f: spec_fn(int) -> int)
    requires
        lo < hi,
    ensures
        sum_terms(lo, hi, f) == sum_terms(lo, hi - 1, f) + f(hi - 1),
{
    lemma_sum_split(lo, hi - 1, hi, f);
    assert(sum_terms(hi - 1, hi, f) == f(hi - 1) + sum_terms(hi, hi, f));
    assert(sum_terms(hi, hi, f) == 0);
}

/// Sums of pointwise-equal terms are equal.
pub proof fn lemma_sum_eq(lo: int, hi: int, f: spec_fn(int) -> int, g: spec_fn(int) -> int)
    requires
        forall|i: int| lo <= i < hi ==> #[trigger] f(i) == g(i),
    ensures
        sum_terms(lo, hi, f) == sum_terms(lo, hi, g),
    decreases hi - lo,
{
    if lo < hi {
        lemma_sum_eq(lo + 1, hi, f, g);
    }
}

/// A sum of zeros is zero.
pub proof fn lemma_sum_zero(lo: int, hi: int, f: spec_fn(int) -> int)
    requires
        forall|i: int| lo <= i < hi ==> #[trigger] f(i) == 0,
    ensures
        sum_terms(lo, hi, f) == 0,
    decreases hi - lo,
{
    if lo < hi {
        lemma_sum_zero(lo + 1, hi, f);
    }
}

/// A sum with a single possibly-nonzero term equals that term.
pub proof fn lemma_sum_single(lo: int, hi: int, f: spec_fn(int) -> int, k: int)
    requires
        lo <= k < hi,
        forall|i: int| lo <= i < hi && i != k ==> #[trigger] f(i) == 0,
    ensures
        sum_terms(lo, hi, f) == f(k),
{
    lemma_sum_split(lo, k, hi, f);
    lemma_sum_zero(lo, k, f);
    lemma_sum_zero(k + 1, hi, f);
}

/// Sums distribute over pointwise addition.
pub proof fn lemma_sum_add(
    lo: int,
    hi: int,
    f: spec_fn(int) -> int,
    g: spec_fn(int) -> int,
    h: spec_fn(int) -> int,
)
    requires
        forall|i: int| lo <= i < hi ==> #[trigger] h(i) == f(i) + g(i),
    ensures
        sum_terms(lo, hi, h) == sum_terms(lo, hi, f) + sum_terms(lo, hi, g),
    decreases hi - lo,
{
    if lo < hi {
        lemma_sum_add(lo + 1, hi, f, g, h);
    }
}

/// A constant factor moves out of a sum (factor on the left).
pub proof fn lemma_sum_scale(
    lo: int,
    hi: int,
    f: spec_fn(int) -> int,
    g: spec_fn(int) -> int,
    c: int,
)
    requires
        forall|i: int| lo <= i < hi ==> #[trigger] g(i) == c * f(i),
    ensures
        sum_terms(lo, hi, g) == c * sum_terms(lo, hi, f),
    decreases hi - lo,
{
    if lo >= hi {
        assert(c * 0 == 0) by (nonlinear_arith);
    } else {
        lemma_sum_scale(lo + 1, hi, f, g, c);
        assert(c * (f(lo) + sum_terms(lo + 1, hi, f)) == c * f(lo) + c * sum_terms(lo + 1, hi, f))
            by {
            lemma_mul_is_distributive_add(c, f(lo), sum_terms(lo + 1, hi, f));
        }
    }
}

/// A sum of terms bounded in magnitude by `m` is bounded by `(hi-lo)*m`.
pub proof fn lemma_sum_bound(lo: int, hi: int, f: spec_fn(int) -> int, m: int)
    requires
        lo <= hi,
        0 <= m,
        forall|i: int| lo <= i < hi ==> -m <= #[trigger] f(i) <= m,
    ensures
        -((hi - lo) * m) <= sum_terms(lo, hi, f) <= (hi - lo) * m,
    decreases hi - lo,
{
    if lo >= hi {
        assert((hi - lo) * m == 0) by (nonlinear_arith)
            requires
                hi == lo,
        ;
    } else {
        lemma_sum_bound(lo + 1, hi, f, m);
        assert((hi - lo) * m == m + (hi - (lo + 1)) * m) by {
            lemma_mul_is_distributive_add_other_way(m, 1, hi - lo - 1);
        }
    }
}

/// Sums of pointwise-congruent terms are congruent modulo `q`.
pub proof fn lemma_sum_mod(
    lo: int,
    hi: int,
    f: spec_fn(int) -> int,
    g: spec_fn(int) -> int,
    q: int,
)
    requires
        0 < q,
        forall|i: int| lo <= i < hi ==> #[trigger] f(i) % q == #[trigger] g(i) % q,
    ensures
        sum_terms(lo, hi, f) % q == sum_terms(lo, hi, g) % q,
    decreases hi - lo,
{
    if lo < hi {
        lemma_sum_mod(lo + 1, hi, f, g, q);
        lemma_add_mod_noop(f(lo), sum_terms(lo + 1, hi, f), q);
        lemma_add_mod_noop(g(lo), sum_terms(lo + 1, hi, g), q);
    }
}

/// The order of a double summation can be exchanged.
pub proof fn lemma_sum_swap(m: int, p: int, f: spec_fn(int, int) -> int)
    requires
        0 <= m,
        0 <= p,
    ensures
        sum_terms(0, m, |i: int| sum_terms(0, p, |j: int| f(i, j))) == sum_terms(
            0,
            p,
            |j: int| sum_terms(0, m, |i: int| f(i, j)),
        ),
    decreases m,
{
    let rows = |i: int| sum_terms(0, p, |j: int| f(i, j));
    let cols = |j: int| sum_terms(0, m, |i: int| f(i, j));
    if m == 0 {
        assert forall|j: int| 0 <= j < p implies #[trigger] cols(j) == 0 by {
            assert(sum_terms(0, 0, |i: int| f(i, j)) == 0);
        }
        lemma_sum_zero(0, p, cols);
    } else {
        let cols_short = |j: int| sum_terms(0, m - 1, |i: int| f(i, j));
        lemma_sum_swap(m - 1, p, f);
        lemma_sum_pop_back(0, m, rows);
        let last = |j: int| f(m - 1, j);
        assert forall|j: int| 0 <= j < p implies #[trigger] cols(j) == cols_short(j) + last(j) by {
            lemma_sum_pop_back(0, m, |i: int| f(i, j));
        }
        lemma_sum_add(0, p, cols_short, last, cols);
    }
}

/// The outermost index of a triple summation can be moved innermost.
pub proof fn lemma_sum_swap3(m: int, p: int, r: int, f: spec_fn(int, int, int) -> int)
    requires
        0 <= m,
        0 <= p,
        0 <= r,
    ensures
        sum_terms(
            0,
            m,
            |x: int| sum_terms(0, p, |y: int| sum_terms(0, r, |z: int| f(x, y, z))),
        ) == sum_terms(
            0,
            p,
            |y: int| sum_terms(0, r, |z: int| sum_terms(0, m, |x: int| f(x, y, z))),
        ),
{
    let fxy = |x: int, y: int| sum_terms(0, r, |z: int| f(x, y, z));
    lemma_sum_swap(m, p, fxy);
    let lhs_row = |x: int| sum_terms(0, p, |y: int| sum_terms(0, r, |z: int| f(x, y, z)));
    let mid_row = |x: int| sum_terms(0, p, |y: int| fxy(x, y));
    assert forall|x: int| 0 <= x < m implies #[trigger] lhs_row(x) == mid_row(x) by {
        lemma_sum_eq(0, p, |y: int| sum_terms(0, r, |z: int| f(x, y, z)), |y: int| fxy(x, y));
    }
    lemma_sum_eq(0, m, lhs_row, mid_row);
    let mid_col = |y: int| sum_terms(0, m, |x: int| fxy(x, y));
    let rhs_col = |y: int| sum_terms(0, r, |z: int| sum_terms(0, m, |x: int| f(x, y, z)));
    assert forall|y: int| 0 <= y < p implies #[trigger] mid_col(y) == rhs_col(y) by {
        let fxz = |x: int, z: int| f(x, y, z);
        lemma_sum_swap(m, r, fxz);
        let left_here = |x: int| fxy(x, y);
        let left_rows = |x: int| sum_terms(0, r, |z: int| fxz(x, z));
        assert forall|x: int| 0 <= x < m implies #[trigger] left_here(x) == left_rows(x) by {
            lemma_sum_eq(0, r, |z: int| f(x, y, z), |z: int| fxz(x, z));
        }
        lemma_sum_eq(0, m, left_here, left_rows);
        let right_cols = |z: int| sum_terms(0, m, |x: int| fxz(x, z));
        let right_here = |z: int| sum_terms(0, m, |x: int| f(x, y, z));
        assert forall|z: int| 0 <= z < r implies #[trigger] right_cols(z) == right_here(z) by {
            lemma_sum_eq(0, m, |x: int| fxz(x, z), |x: int| f(x, y, z));
        }
        lemma_sum_eq(0, r, right_cols, right_here);
    }
    lemma_sum_eq(0, p, mid_col, rhs_col);
}

} // verus!
