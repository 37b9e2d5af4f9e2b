//! The negacyclic convolution: multiplication of coefficient sequences in
//! Z[X]/(X^n + 1). A coefficient at position `i >= n` of the plain product
//! contributes to position `i - n` with its sign negated, since X^n == -1.
//!
//! Besides the definition, this module proves the algebraic facts the
//! scheme's correctness rests on: coefficient bounds, congruence and
//! linearity in the left factor, and the exchange `(a*b)*c == (a*c)*b`.

use vstd::prelude::*;

verus! {

use crate::sums::sum_terms;
use crate::sums::lemma_sum_pop_back;
use crate::sums::lemma_sum_bound;
use crate::sums::lemma_sum_mod;
use crate::sums::lemma_sum_add;
use crate::sums::lemma_sum_eq;
use crate::sums::lemma_sum_single;
use crate::sums::lemma_sum_swap;
use crate::sums::lemma_sum_swap3;
use crate::sums::lemma_sum_scale;
use vstd::arithmetic::div_mod::lemma_sub_mod_noop;
use vstd::arithmetic::div_mod::lemma_mul_mod_noop_left;
use vstd::arithmetic::mul::lemma_mul_is_distributive_add_other_way;

/// Congruence modulo `q` (spec `%` is Euclidean, so residues match exactly).
pub open spec fn congruent(q: int, x: int, y: int) -> bool {
    x % q == y % q
}

/// Coefficient-wise congruence of two sequences of the same length.
pub open spec fn congruent_seq(q: int, x: Seq<int>, y: Seq<int>) -> bool {
    &&& x.len() == y.len()
    &&& forall|i: int| 0 <= i < x.len() ==> congruent(q, x[i], y[i])
}

/// Term `j` of coefficient `k` of the negacyclic product `a * b`:
/// `a[j]` multiplies the coefficient of `b` that lands on position `k`,
/// negated when the pair wraps past `X^n`.
pub open spec fn conv_term(a: Seq<int>, b: Seq<int>, n: int, k: int, j: int) -> int {
    if j <= k {
        a[j] * b[k - j]
    } else {
        -(a[j] * b[n + k - j])
    }
}

pub open spec fn conv_term_fn(a: Seq<int>, b: Seq<int>, n: int, k: int) -> spec_fn(int) -> int {
    |j: int| conv_term(a, b, n, k, j)
}

/// Coefficient `k` of the negacyclic product of `a` and `b`.
pub open spec fn conv_at(a: Seq<int>, b: Seq<int>, n: int, k: int) -> int {
    sum_terms(0, n, conv_term_fn(a, b, n, k))
}

/// The negacyclic product `a * b` in Z[X]/(X^n + 1), as `n` coefficients.
pub open spec fn conv(a: Seq<int>, b: Seq<int>, n: int) -> Seq<int> {
    Seq::new(n as nat, |k: int| conv_at(a, b, n, k))
}

/// `sum_terms(0, j+1, f) == sum_terms(0, j, f) + f(j)`, packaged for the
/// loops that accumulate convolution coefficients.
pub proof fn lemma_conv_partial_step(a: Seq<int>, b: Seq<int>, n: int, k: int, j: int)
    requires
        0 <= j,
    ensures
        sum_terms(0, j + 1, conv_term_fn(a, b, n, k)) == sum_terms(0, j, conv_term_fn(a, b, n, k))
            + conv_term(a, b, n, k, j),
{
    lemma_sum_pop_back(0, j + 1, conv_term_fn(a, b, n, k));
}

/// Coefficients of the product of bounded sequences are bounded by `n * ba * bb`.
pub proof fn lemma_conv_term_bound(
    a: Seq<int>,
    b: Seq<int>,
    n: int,
    k: int,
    ba: int,
    bb: int,
)
    requires
        0 <= k < n,
        a.len() == n,
        b.len() == n,
        0 <= ba,
        0 <= bb,
        forall|i: int| 0 <= i < n ==> -ba <= #[trigger] a[i] <= ba,
        forall|i: int| 0 <= i < n ==> -bb <= #[trigger] b[i] <= bb,
    ensures
        forall|j: int|
            0 <= j < n ==> -(ba * bb) <= #[trigger] conv_term(a, b, n, k, j) <= ba * bb,
        -(n * (ba * bb)) <= conv_at(a, b, n, k) <= n * (ba * bb),
{
    assert forall|j: int| 0 <= j < n implies -(ba * bb) <= #[trigger] conv_term(a, b, n, k, j)
        <= ba * bb by {
        let bj = if j <= k {
            b[k - j]
        } else {
            b[n + k - j]
        };
        assert(-(ba * bb) <= a[j] * bj <= ba * bb) by (nonlinear_arith)
            requires
                -ba <= a[j] <= ba,
                -bb <= bj <= bb,
                0 <= ba,
                0 <= bb,
        ;
    }
    assert forall|j: int| 0 <= j < n implies -(ba * bb) <= #[trigger] conv_term_fn(
        a,
        b,
        n,
        k,
    )(j) <= ba * bb by {
        assert(conv_term_fn(a, b, n, k)(j) == conv_term(a, b, n, k, j));
    }
    lemma_sum_bound(0, n, conv_term_fn(a, b, n, k), ba * bb);
}

/// The bound of the previous lemma, for every coefficient at once.
pub proof fn lemma_conv_bound(a: Seq<int>, b: Seq<int>, n: int, ba: int, bb: int)
    requires
        1 <= n,
        a.len() == n,
        b.len() == n,
        0 <= ba,
        0 <= bb,
        forall|i: int| 0 <= i < n ==> -ba <= #[trigger] a[i] <= ba,
        forall|i: int| 0 <= i < n ==> -bb <= #[trigger] b[i] <= bb,
    ensures
        forall|k: int|
            0 <= k < n ==> -(n * (ba * bb)) <= #[trigger] conv(a, b, n)[k] <= n * (ba * bb),
{
    assert forall|k: int| 0 <= k < n implies -(n * (ba * bb)) <= #[trigger] conv(a, b, n)[k] <= n
        * (ba * bb) by {
        lemma_conv_term_bound(a, b, n, k, ba, bb);
    }
}

/// Negation preserves congruence.
pub proof fn lemma_neg_congruent(q: int, x: int, y: int)
    requires
        0 < q,
        congruent(q, x, y),
    ensures
        congruent(q, -x, -y),
{
    lemma_sub_mod_noop(0, x, q);
    lemma_sub_mod_noop(0, y, q);
}

/// The product is congruent in its left factor, coefficient by coefficient.
pub proof fn lemma_conv_congruent_left(q: int, a: Seq<int>, a2: Seq<int>, b: Seq<int>, n: int)
    requires
        0 < q,
        0 < n,
        a.len() == n,
        a2.len() == n,
        congruent_seq(q, a, a2),
    ensures
        congruent_seq(q, conv(a, b, n), conv(a2, b, n)),
{
    assert forall|k: int| 0 <= k < n implies congruent(
        q,
        conv(a, b, n)[k],
        conv(a2, b, n)[k],
    ) by {
        assert forall|j: int| 0 <= j < n implies #[trigger] conv_term_fn(a, b, n, k)(j) % q
            == #[trigger] conv_term_fn(a2, b, n, k)(j) % q by {
            let bj = if j <= k {
                b[k - j]
            } else {
                b[n + k - j]
            };
            lemma_mul_mod_noop_left(a[j], bj, q);
            lemma_mul_mod_noop_left(a2[j], bj, q);
            assert((a[j] * bj) % q == (a2[j] * bj) % q);
            if j > k {
                lemma_neg_congruent(q, a[j] * bj, a2[j] * bj);
            }
        }
        lemma_sum_mod(0, n, conv_term_fn(a, b, n, k), conv_term_fn(a2, b, n, k), q);
    }
}

/// The product is linear in its left factor: `(a1 + a2) * b == a1*b + a2*b`,
/// where `s` is the coefficient-wise sum of `a1` and `a2`.
pub proof fn lemma_conv_linear_left(a1: Seq<int>, a2: Seq<int>, s: Seq<int>, b: Seq<int>, n: int)
    requires
        0 < n,
        s.len() == n,
        forall|i: int| 0 <= i < n ==> #[trigger] s[i] == a1[i] + a2[i],
    ensures
        forall|k: int|
            0 <= k < n ==> #[trigger] conv(s, b, n)[k] == conv(a1, b, n)[k] + conv(a2, b, n)[k],
{
    assert forall|k: int| 0 <= k < n implies #[trigger] conv(s, b, n)[k] == conv(a1, b, n)[k]
        + conv(a2, b, n)[k] by {
        assert forall|j: int| 0 <= j < n implies #[trigger] conv_term_fn(s, b, n, k)(j)
            == conv_term_fn(a1, b, n, k)(j) + conv_term_fn(a2, b, n, k)(j) by {
            let bj = if j <= k {
                b[k - j]
            } else {
                b[n + k - j]
            };
            lemma_mul_is_distributive_add_other_way(bj, a1[j], a2[j]);
            assert(s[j] * bj == a1[j] * bj + a2[j] * bj);
        }
        lemma_sum_add(
            0,
            n,
            conv_term_fn(a1, b, n, k),
            conv_term_fn(a2, b, n, k),
            conv_term_fn(s, b, n, k),
        );
    }
}

/// 1 when the pair (i, j) lands on position `k` without wrapping, -1 when
/// it wraps once past `X^n` (picking up the sign of `X^n == -1`), 0 otherwise.
pub open spec fn delta(n: int, i: int, j: int, k: int) -> int {
    if i + j == k {
        1
    } else if i + j == n + k {
        -1
    } else {
        0
    }
}

pub open spec fn pair_term(a: Seq<int>, b: Seq<int>, n: int, k: int, i: int, j: int) -> int {
    delta(n, i, j, k) * (a[i] * b[j])
}

pub open spec fn pair_inner_fn(a: Seq<int>, b: Seq<int>, n: int, k: int, i: int) -> spec_fn(
    int,
) -> int {
    |j: int| pair_term(a, b, n, k, i, j)
}

pub open spec fn pair_outer_fn(a: Seq<int>, b: Seq<int>, n: int, k: int) -> spec_fn(int) -> int {
    |i: int| sum_terms(0, n, pair_inner_fn(a, b, n, k, i))
}

/// Coefficient `k` of the product, written as a double sum over all pairs.
pub open spec fn conv_delta_at(a: Seq<int>, b: Seq<int>, n: int, k: int) -> int {
    sum_terms(0, n, pair_outer_fn(a, b, n, k))
}

/// The double-sum form agrees with the definition: for each `i` exactly one
/// `j` in `[0, n)` pairs with it, namely `k - i` (no wrap) or `n + k - i`
/// (one wrap).
pub proof fn lemma_conv_delta_form(a: Seq<int>, b: Seq<int>, n: int, k: int)
    requires
        0 <= k < n,
    ensures
        conv_delta_at(a, b, n, k) == conv_at(a, b, n, k),
{
    assert forall|i: int| 0 <= i < n implies #[trigger] pair_outer_fn(a, b, n, k)(i)
        == conv_term_fn(a, b, n, k)(i) by {
        let j0 = if i <= k {
            k - i
        } else {
            n + k - i
        };
        assert forall|j: int| 0 <= j < n && j != j0 implies #[trigger] pair_inner_fn(
            a,
            b,
            n,
            k,
            i,
        )(j) == 0 by {
            assert(delta(n, i, j, k) == 0);
        }
        lemma_sum_single(0, n, pair_inner_fn(a, b, n, k, i), j0);
        assert(pair_outer_fn(a, b, n, k)(i) == pair_inner_fn(a, b, n, k, i)(j0));
        assert(pair_inner_fn(a, b, n, k, i)(j0) == delta(n, i, j0, k) * (a[i] * b[j0]));
        if i <= k {
            assert(delta(n, i, j0, k) == 1);
            assert(1 * (a[i] * b[j0]) == a[i] * b[k - i]);
            assert(conv_term_fn(a, b, n, k)(i) == a[i] * b[k - i]);
        } else {
            assert(delta(n, i, j0, k) == -1);
            assert((-1) * (a[i] * b[j0]) == -(a[i] * b[n + k - i]));
            assert(conv_term_fn(a, b, n, k)(i) == -(a[i] * b[n + k - i]));
        }
    }
    lemma_sum_eq(0, n, pair_outer_fn(a, b, n, k), conv_term_fn(a, b, n, k));
}

/// 1 when the triple (i, j, l) lands on position `k` after an even number
/// of wraps past `X^n`, -1 after an odd number, 0 otherwise.
pub open spec fn tau(n: int, i: int, j: int, l: int, k: int) -> int {
    if i + j + l == k {
        1
    } else if i + j + l == n + k {
        -1
    } else if i + j + l == 2 * n + k {
        1
    } else {
        0
    }
}

pub open spec fn triple_term(
    a: Seq<int>,
    b: Seq<int>,
    c: Seq<int>,
    n: int,
    k: int,
    i: int,
    j: int,
    l: int,
) -> int {
    tau(n, i, j, l, k) * ((a[i] * b[j]) * c[l])
}

pub open spec fn triple_l_fn(
    a: Seq<int>,
    b: Seq<int>,
    c: Seq<int>,
    n: int,
    k: int,
    i: int,
    j: int,
) -> spec_fn(int) -> int {
    |l: int| triple_term(a, b, c, n, k, i, j, l)
}

pub open spec fn triple_jl_fn(
    a: Seq<int>,
    b: Seq<int>,
    c: Seq<int>,
    n: int,
    k: int,
    i: int,
) -> spec_fn(int) -> int {
    |j: int| sum_terms(0, n, triple_l_fn(a, b, c, n, k, i, j))
}

pub open spec fn triple_i_fn(a: Seq<int>, b: Seq<int>, c: Seq<int>, n: int, k: int) -> spec_fn(
    int,
) -> int {
    |i: int| sum_terms(0, n, triple_jl_fn(a, b, c, n, k, i))
}

/// Coefficient `k` of the triple product `a * b * c`, as a sum over all
/// triples of positions. It is symmetric in its three factors.
pub open spec fn triple_at(a: Seq<int>, b: Seq<int>, c: Seq<int>, n: int, k: int) -> int {
    sum_terms(0, n, triple_i_fn(a, b, c, n, k))
}

/// The triple sum does not change when its last two factors are exchanged.
pub proof fn lemma_triple_swap(a: Seq<int>, b: Seq<int>, c: Seq<int>, n: int, k: int)
    requires
        0 <= n,
    ensures
        triple_at(a, b, c, n, k) == triple_at(a, c, b, n, k),
{
    assert forall|i: int| 0 <= i < n implies #[trigger] triple_i_fn(a, b, c, n, k)(i)
        == triple_i_fn(a, c, b, n, k)(i) by {
        let f2 = |j: int, l: int| triple_term(a, b, c, n, k, i, j, l);
        lemma_sum_swap(n, n, f2);
        assert forall|j: int| 0 <= j < n implies #[trigger] triple_jl_fn(a, b, c, n, k, i)(j)
            == sum_terms(0, n, |l: int| f2(j, l)) by {
            lemma_sum_eq(0, n, triple_l_fn(a, b, c, n, k, i, j), |l: int| f2(j, l));
        }
        lemma_sum_eq(
            0,
            n,
            triple_jl_fn(a, b, c, n, k, i),
            |j: int| sum_terms(0, n, |l: int| f2(j, l)),
        );
        assert forall|x: int| 0 <= x < n implies (|l: int|
            sum_terms(0, n, |j: int| f2(j, l)))(x) == #[trigger] triple_jl_fn(a, c, b, n, k, i)(
            x,
        ) by {
            assert forall|y: int| 0 <= y < n implies (|j: int| f2(j, x))(y)
                == #[trigger] triple_l_fn(a, c, b, n, k, i, x)(y) by {
                assert((a[i] * b[y]) * c[x] == (a[i] * c[x]) * b[y]) by (nonlinear_arith);
                assert(tau(n, i, y, x, k) == tau(n, i, x, y, k));
            }
            lemma_sum_eq(0, n, |j: int| f2(j, x), triple_l_fn(a, c, b, n, k, i, x));
        }
        lemma_sum_eq(
            0,
            n,
            |l: int| sum_terms(0, n, |j: int| f2(j, l)),
            triple_jl_fn(a, c, b, n, k, i),
        );
    }
    lemma_sum_eq(0, n, triple_i_fn(a, b, c, n, k), triple_i_fn(a, c, b, n, k));
}

pub open spec fn quad_j_fn(
    a: Seq<int>,
    b: Seq<int>,
    c: Seq<int>,
    n: int,
    k: int,
    u: int,
    l: int,
    i: int,
) -> spec_fn(int) -> int {
    |j: int| ((a[i] * b[j]) * c[l]) * (delta(n, u, l, k) * delta(n, i, j, u))
}

pub open spec fn quad_ij_fn(
    a: Seq<int>,
    b: Seq<int>,
    c: Seq<int>,
    n: int,
    k: int,
    u: int,
    l: int,
) -> spec_fn(int) -> int {
    |i: int| sum_terms(0, n, quad_j_fn(a, b, c, n, k, u, l, i))
}

/// The contribution of the pair `(u, l)` — position `u` of `a * b` against
/// position `l` of `c` — written out over all pairs `(i, j)` of positions
/// of `a` and `b`.
pub open spec fn quad_at(
    a: Seq<int>,
    b: Seq<int>,
    c: Seq<int>,
    n: int,
    k: int,
    u: int,
    l: int,
) -> int {
    sum_terms(0, n, quad_ij_fn(a, b, c, n, k, u, l))
}

pub open spec fn quad_u_fn(
    a: Seq<int>,
    b: Seq<int>,
    c: Seq<int>,
    n: int,
    k: int,
    l: int,
    i: int,
    j: int,
) -> spec_fn(int) -> int {
    |u: int| ((a[i] * b[j]) * c[l]) * (delta(n, u, l, k) * delta(n, i, j, u))
}

/// Expanding `(a*b)[u]` inside the term `delta * ((a*b)[u] * c[l])` gives
/// the quadruple sum over `(i, j)`.
pub proof fn lemma_pair_term_expand(
    a: Seq<int>,
    b: Seq<int>,
    c: Seq<int>,
    n: int,
    k: int,
    u: int,
    l: int,
)
    requires
        1 <= n,
        0 <= u < n,
    ensures
        pair_term(conv(a, b, n), c, n, k, u, l) == quad_at(a, b, c, n, k, u, l),
{
    let ab = conv(a, b, n);
    let w = delta(n, u, l, k) * c[l];
    assert forall|i: int| 0 <= i < n implies #[trigger] quad_ij_fn(a, b, c, n, k, u, l)(i) == w
        * pair_outer_fn(a, b, n, u)(i) by {
        assert forall|j: int| 0 <= j < n implies #[trigger] quad_j_fn(a, b, c, n, k, u, l, i)(j)
            == w * pair_inner_fn(a, b, n, u, i)(j) by {
            let p = a[i] * b[j];
            let d1 = delta(n, u, l, k);
            let d2 = delta(n, i, j, u);
            assert((p * c[l]) * (d1 * d2) == (d1 * c[l]) * (d2 * p)) by (nonlinear_arith);
        }
        lemma_sum_scale(
            0,
            n,
            pair_inner_fn(a, b, n, u, i),
            quad_j_fn(a, b, c, n, k, u, l, i),
            w,
        );
    }
    lemma_sum_scale(0, n, pair_outer_fn(a, b, n, u), quad_ij_fn(a, b, c, n, k, u, l), w);
    lemma_conv_delta_form(a, b, n, u);
    assert(ab[u] == conv_at(a, b, n, u));
    assert(delta(n, u, l, k) * (ab[u] * c[l]) == (delta(n, u, l, k) * c[l]) * ab[u])
        by (nonlinear_arith);
}

/// For fixed `(i, j, l)` only one position `u` of `a * b` contributes, and
/// its two wrap signs combine into the triple sign `tau`.
pub proof fn lemma_quad_collapse_u(
    a: Seq<int>,
    b: Seq<int>,
    c: Seq<int>,
    n: int,
    k: int,
    l: int,
    i: int,
    j: int,
)
    requires
        0 <= k < n,
        0 <= l < n,
        0 <= i < n,
        0 <= j < n,
    ensures
        sum_terms(0, n, quad_u_fn(a, b, c, n, k, l, i, j)) == triple_term(a, b, c, n, k, i, j, l),
{
    let p = (a[i] * b[j]) * c[l];
    let u0 = if i + j < n {
        i + j
    } else {
        i + j - n
    };
    assert forall|u: int| 0 <= u < n && u != u0 implies #[trigger] quad_u_fn(
        a,
        b,
        c,
        n,
        k,
        l,
        i,
        j,
    )(u) == 0 by {
        assert(delta(n, i, j, u) == 0);
    }
    lemma_sum_single(0, n, quad_u_fn(a, b, c, n, k, l, i, j), u0);
    assert(sum_terms(0, n, quad_u_fn(a, b, c, n, k, l, i, j)) == quad_u_fn(
        a,
        b,
        c,
        n,
        k,
        l,
        i,
        j,
    )(u0));
    assert(quad_u_fn(a, b, c, n, k, l, i, j)(u0) == p * (delta(n, u0, l, k) * delta(
        n,
        i,
        j,
        u0,
    )));
    assert(triple_term(a, b, c, n, k, i, j, l) == tau(n, i, j, l, k) * p);
    if i + j < n {
        assert(delta(n, i, j, u0) == 1);
        assert(i + j + l < 2 * n + k);
        if u0 + l == k {
            assert(tau(n, i, j, l, k) == 1);
            assert(p * (1 * 1) == 1 * p) by (nonlinear_arith);
        } else if u0 + l == n + k {
            assert(tau(n, i, j, l, k) == -1);
            assert(p * ((-1) * 1) == (-1) * p) by (nonlinear_arith);
        } else {
            assert(tau(n, i, j, l, k) == 0);
            assert(p * (0 * 1) == 0 * p) by (nonlinear_arith);
        }
    } else {
        assert(delta(n, i, j, u0) == -1);
        assert(i + j + l > k);
        if u0 + l == k {
            assert(tau(n, i, j, l, k) == -1);
            assert(p * (1 * -1) == (-1) * p) by (nonlinear_arith);
        } else if u0 + l == n + k {
            assert(tau(n, i, j, l, k) == 1);
            assert(p * ((-1) * -1) == 1 * p) by (nonlinear_arith);
        } else {
            assert(tau(n, i, j, l, k) == 0);
            assert(p * (0 * -1) == 0 * p) by (nonlinear_arith);
        }
    }
}

/// Coefficient `k` of `(a * b) * c` equals the symmetric triple sum.
pub proof fn lemma_conv_conv_is_triple(a: Seq<int>, b: Seq<int>, c: Seq<int>, n: int, k: int)
    requires
        0 <= k < n,
    ensures
        conv_at(conv(a, b, n), c, n, k) == triple_at(a, b, c, n, k),
{
    let ab = conv(a, b, n);
    lemma_conv_delta_form(ab, c, n, k);
    let q4 = |u: int, l: int| quad_at(a, b, c, n, k, u, l);
    let q4_rows = |u: int| sum_terms(0, n, |l: int| q4(u, l));
    assert forall|u: int| 0 <= u < n implies #[trigger] pair_outer_fn(ab, c, n, k)(u) == q4_rows(
        u,
    ) by {
        assert forall|l: int| 0 <= l < n implies #[trigger] pair_inner_fn(ab, c, n, k, u)(l) == (
        |l2: int| q4(u, l2))(l) by {
            lemma_pair_term_expand(a, b, c, n, k, u, l);
        }
        lemma_sum_eq(0, n, pair_inner_fn(ab, c, n, k, u), |l: int| q4(u, l));
    }
    lemma_sum_eq(0, n, pair_outer_fn(ab, c, n, k), q4_rows);
    lemma_sum_swap(n, n, q4);
    // Now the left side is the sum over l of the sum over u of q4(u, l).
    let q4_cols = |l: int| sum_terms(0, n, |u: int| q4(u, l));
    let tt = |l: int, i: int, j: int| triple_term(a, b, c, n, k, i, j, l);
    let tt_l = |l: int| sum_terms(0, n, |i: int| sum_terms(0, n, |j: int| tt(l, i, j)));
    assert forall|l: int| 0 <= l < n implies #[trigger] q4_cols(l) == tt_l(l) by {
        let f3 = |u: int, i: int, j: int| quad_u_fn(a, b, c, n, k, l, i, j)(u);
        let f3_u = |u: int| sum_terms(0, n, |i: int| sum_terms(0, n, |j: int| f3(u, i, j)));
        assert forall|u: int| 0 <= u < n implies (|u2: int| q4(u2, l))(u) == #[trigger] f3_u(
            u,
        ) by {
            assert forall|i: int| 0 <= i < n implies #[trigger] quad_ij_fn(a, b, c, n, k, u, l)(
                i,
            ) == (|i2: int| sum_terms(0, n, |j: int| f3(u, i2, j)))(i) by {
                lemma_sum_eq(0, n, quad_j_fn(a, b, c, n, k, u, l, i), |j: int| f3(u, i, j));
            }
            lemma_sum_eq(
                0,
                n,
                quad_ij_fn(a, b, c, n, k, u, l),
                |i: int| sum_terms(0, n, |j: int| f3(u, i, j)),
            );
        }
        lemma_sum_eq(0, n, |u: int| q4(u, l), f3_u);
        lemma_sum_swap3(n, n, n, f3);
        // Collapse the innermost sum over u.
        let collapsed = |i: int| sum_terms(0, n, |j: int| sum_terms(0, n, |u: int| f3(u, i, j)));
        let target = |i: int| sum_terms(0, n, |j: int| tt(l, i, j));
        assert forall|i: int| 0 <= i < n implies #[trigger] collapsed(i) == target(i) by {
            let inner_u = |j2: int| sum_terms(0, n, |u: int| f3(u, i, j2));
            let inner_t = |j2: int| tt(l, i, j2);
            assert forall|j: int| 0 <= j < n implies #[trigger] inner_u(j) == inner_t(j) by {
                lemma_sum_eq(0, n, |u: int| f3(u, i, j), quad_u_fn(a, b, c, n, k, l, i, j));
                lemma_quad_collapse_u(a, b, c, n, k, l, i, j);
            }
            lemma_sum_eq(0, n, inner_u, inner_t);
        }
        lemma_sum_eq(0, n, collapsed, target);
    }
    lemma_sum_eq(0, n, q4_cols, tt_l);
    lemma_sum_swap3(n, n, n, tt);
    // Glue the reordered triple sum to triple_at.
    let tt_i = |i: int| sum_terms(0, n, |j: int| sum_terms(0, n, |l: int| tt(l, i, j)));
    assert forall|i: int| 0 <= i < n implies #[trigger] triple_i_fn(a, b, c, n, k)(i) == tt_i(
        i,
    ) by {
        assert forall|j: int| 0 <= j < n implies #[trigger] triple_jl_fn(a, b, c, n, k, i)(j) == (
        |j2: int| sum_terms(0, n, |l: int| tt(l, i, j2)))(j) by {
            lemma_sum_eq(0, n, triple_l_fn(a, b, c, n, k, i, j), |l: int| tt(l, i, j));
        }
        lemma_sum_eq(
            0,
            n,
            triple_jl_fn(a, b, c, n, k, i),
            |j: int| sum_terms(0, n, |l: int| tt(l, i, j)),
        );
    }
    lemma_sum_eq(0, n, triple_i_fn(a, b, c, n, k), tt_i);
}

/// In Z[X]/(X^n + 1), `(a * b) * c == (a * c) * b` exactly (over the
/// integers, before any reduction modulo q).
pub proof fn lemma_conv_swap_factors(a: Seq<int>, b: Seq<int>, c: Seq<int>, n: int)
    requires
        1 <= n,
    ensures
        conv(conv(a, b, n), c, n) == conv(conv(a, c, n), b, n),
{
    assert forall|k: int| 0 <= k < n implies #[trigger] conv(conv(a, b, n), c, n)[k] == conv(
        conv(a, c, n),
        b,
        n,
    )[k] by {
        lemma_conv_conv_is_triple(a, b, c, n, k);
        lemma_triple_swap(a, b, c, n, k);
        lemma_conv_conv_is_triple(a, c, b, n, k);
    }
    assert(conv(conv(a, b, n), c, n) =~= conv(conv(a, c, n), b, n));
}

} // verus!
