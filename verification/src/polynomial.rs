//! Elements of R_q = Z_q[X]/(X^N + 1) and the polynomial operations of the
//! scheme: centred reduction, addition, subtraction, negacyclic
//! multiplication, scaling by the closest integer to q/2, threshold
//! rounding, fixed-length expansion, and uniform sampling.

use vstd::prelude::*;

verus! {

use crate::intfield::IntField;
use crate::intfield::centered;
use crate::intfield::in_centered_range;
use crate::convolution::conv;
use crate::convolution::conv_at;
use crate::convolution::conv_term;
use crate::convolution::conv_term_fn;
use crate::convolution::lemma_conv_partial_step;
use crate::convolution::lemma_conv_term_bound;
use crate::sums::sum_terms;
use crate::rng::sample_range;
use vstd::arithmetic::mul::lemma_mul_inequality;
use vstd::arithmetic::mul::lemma_mul_is_distributive_add_other_way;
use vstd::math::abs;

/// A coefficient vector read as a sequence of unbounded integers.
pub open spec fn as_ints(s: Seq<i64>) -> Seq<int> {
    Seq::new(s.len(), |i: int| s[i] as int)
}

/// Every entry lies in the centred canonical range of `q`.
pub open spec fn all_in_range(q: int, s: Seq<int>) -> bool {
    forall|i: int| 0 <= i < s.len() ==> in_centered_range(q, #[trigger] s[i])
}

/// Every entry has magnitude at most `m`.
pub open spec fn all_bounded(s: Seq<int>, m: int) -> bool {
    forall|i: int| 0 <= i < s.len() ==> -m <= #[trigger] s[i] <= m
}

/// Every entry is a bit.
pub open spec fn is_bits(s: Seq<int>) -> bool {
    forall|i: int| 0 <= i < s.len() ==> #[trigger] s[i] == 0 || s[i] == 1
}

/// Coefficient-wise centred reduction.
pub open spec fn cmod_seq(q: int, s: Seq<int>) -> Seq<int> {
    Seq::new(s.len(), |i: int| centered(q, s[i]))
}

/// Coefficient-wise sum (over the length of the left operand).
pub open spec fn add_seq(x: Seq<int>, y: Seq<int>) -> Seq<int> {
    Seq::new(x.len(), |i: int| x[i] + y[i])
}

/// Coefficient-wise difference.
pub open spec fn sub_seq(x: Seq<int>, y: Seq<int>) -> Seq<int> {
    Seq::new(x.len(), |i: int| x[i] - y[i])
}

/// The closest integer to `q/2`, ties broken upward: `(q+1)/2`.
pub open spec fn half_up(q: int) -> int {
    (q + 1) / 2
}

/// Coefficient-wise multiplication by `half_up(q)`.
pub open spec fn scale_seq(q: int, s: Seq<int>) -> Seq<int> {
    Seq::new(s.len(), |i: int| half_up(q) * s[i])
}

/// The rounding threshold: `half_up(q)` halved, rounding down.
pub open spec fn round_threshold(q: int) -> int {
    half_up(q) / 2
}

/// 1 when `|c|` is above the threshold (closer to q/2 than to 0), else 0.
pub open spec fn round_bit(q: int, c: int) -> int {
    if abs(c) > round_threshold(q) {
        1
    } else {
        0
    }
}

/// Coefficient-wise threshold rounding.
pub open spec fn round_seq(q: int, s: Seq<int>) -> Seq<int> {
    Seq::new(s.len(), |i: int| round_bit(q, s[i]))
}

/// `s` extended with zeros to length `n`.
pub open spec fn pad_zeros(s: Seq<int>, n: int) -> Seq<int> {
    Seq::new(n as nat, |i: int| if i < s.len() { s[i] } else { 0 })
}

/// An element of R_q: coefficients stored from degree 0 upward. The ring
/// operations keep every element at exactly `n` coefficients.
#[derive(Debug, Clone, PartialEq, Eq)]
pub struct RingElement {
    pub coeffs: Vec<i64>,
}

impl View for RingElement {
    type V = Seq<int>;

    open spec fn view(&self) -> Seq<int> {
        as_ints(self.coeffs@)
    }
}

impl RingElement {
    /// A well-formed element of R_q: `n` coefficients, each in the
    /// centred canonical range.
    pub open spec fn wf(self, f: IntField) -> bool {
        &&& self@.len() == f.n
        &&& all_in_range(f.q as int, self@)
    }

    /// A small element: `n` coefficients, each of magnitude at most `b`.
    pub open spec fn small(self, f: IntField) -> bool {
        &&& self@.len() == f.n
        &&& all_bounded(self@, f.b as int)
    }

    /// Builds an element from a plain coefficient vector.
    pub fn from_coeffs(coeffs: Vec<i64>) -> (r: RingElement)
        ensures
            r@ == as_ints(coeffs@),
    {
        RingElement { coeffs }
    }
}

/// Computes `[x/2]`, the closest integer to `x/2`, ties broken upward.
pub fn closest_integer_div_two(x: i64) -> (r: i64)
    requires
        0 <= x < i64::MAX,
    ensures
        r as int == (x as int + 1) / 2,
{
    (x + 1) / 2
}

/// Applies the centred modulo of `f` to each coefficient.
pub fn modulo_coefficients(f: &IntField, p: &RingElement) -> (r: RingElement)
    requires
        f.modulus_ok(),
    ensures
        r@ == cmod_seq(f.q as int, p@),
        r@.len() == p@.len(),
        all_in_range(f.q as int, r@),
{
    let ghost q: int = f.q as int;
    let len = p.coeffs.len();
    let mut out: Vec<i64> = Vec::new();
    let mut i: usize = 0;
    while i < len
        invariant
            0 <= i <= len,
            len == p.coeffs@.len(),
            out@.len() == i,
            f.modulus_ok(),
            q == f.q as int,
            forall|j: int| 0 <= j < i ==> #[trigger] out@[j] as int == centered(q, p@[j]),
        decreases len - i,
    {
        let c = f.modulo(p.coeffs[i]);
        out.push(c);
        i = i + 1;
    }
    let r = RingElement { coeffs: out };
    assert(r@ =~= cmod_seq(q, p@));
    assert forall|j: int| 0 <= j < r@.len() implies in_centered_range(q, #[trigger] r@[j]) by {
        crate::intfield::lemma_centered_range(q, p@[j]);
    }
    r
}

/// Coefficient-wise addition.
pub fn ring_add(a: &RingElement, b: &RingElement) -> (r: RingElement)
    requires
        a@.len() == b@.len(),
        forall|i: int|
            0 <= i < a@.len() ==> i64::MIN <= #[trigger] a@[i] + b@[i] <= i64::MAX,
    ensures
        r@ == add_seq(a@, b@),
{
    let len = a.coeffs.len();
    let mut out: Vec<i64> = Vec::new();
    let mut i: usize = 0;
    while i < len
        invariant
            0 <= i <= len,
            len == a.coeffs@.len(),
            a@.len() == b@.len(),
            out@.len() == i,
            forall|j: int|
                0 <= j < a@.len() ==> i64::MIN <= #[trigger] a@[j] + b@[j] <= i64::MAX,
            forall|j: int| 0 <= j < i ==> #[trigger] out@[j] as int == a@[j] + b@[j],
        decreases len - i,
    {
        assert(a@[i as int] == a.coeffs@[i as int] as int);
        let c = a.coeffs[i] + b.coeffs[i];
        out.push(c);
        i = i + 1;
    }
    let r = RingElement { coeffs: out };
    assert(r@ =~= add_seq(a@, b@));
    r
}

/// Coefficient-wise subtraction.
pub fn ring_sub(a: &RingElement, b: &RingElement) -> (r: RingElement)
    requires
        a@.len() == b@.len(),
        forall|i: int|
            0 <= i < a@.len() ==> i64::MIN <= #[trigger] a@[i] - b@[i] <= i64::MAX,
    ensures
        r@ == sub_seq(a@, b@),
{
    let len = a.coeffs.len();
    let mut out: Vec<i64> = Vec::new();
    let mut i: usize = 0;
    while i < len
        invariant
            0 <= i <= len,
            len == a.coeffs@.len(),
            a@.len() == b@.len(),
            out@.len() == i,
            forall|j: int|
                0 <= j < a@.len() ==> i64::MIN <= #[trigger] a@[j] - b@[j] <= i64::MAX,
            forall|j: int| 0 <= j < i ==> #[trigger] out@[j] as int == a@[j] - b@[j],
        decreases len - i,
    {
        assert(a@[i as int] == a.coeffs@[i as int] as int);
        let c = a.coeffs[i] - b.coeffs[i];
        out.push(c);
        i = i + 1;
    }
    let r = RingElement { coeffs: out };
    assert(r@ =~= sub_seq(a@, b@));
    r
}

/// Multiplies each coefficient by the closest integer to `q/2`.
pub fn scale_coefficients(f: &IntField, p: &RingElement) -> (r: RingElement)
    requires
        f.modulus_ok(),
        forall|i: int| 0 <= i < p@.len() ==> -(f.q as int) <= #[trigger] p@[i] <= f.q as int,
    ensures
        r@ == scale_seq(f.q as int, p@),
{
    let ghost q: int = f.q as int;
    let h = closest_integer_div_two(f.q);
    let len = p.coeffs.len();
    let mut out: Vec<i64> = Vec::new();
    let mut i: usize = 0;
    while i < len
        invariant
            0 <= i <= len,
            len == p.coeffs@.len(),
            out@.len() == i,
            f.modulus_ok(),
            q == f.q as int,
            h as int == half_up(q),
            forall|j: int| 0 <= j < p@.len() ==> -q <= #[trigger] p@[j] <= q,
            forall|j: int| 0 <= j < i ==> #[trigger] out@[j] as int == half_up(q) * p@[j],
        decreases len - i,
    {
        proof {
            assert(-(0x8000_0000i64 * 0x8000_0000i64) <= (h as int) * (p@[i as int])
                <= 0x8000_0000i64 * 0x8000_0000i64) by (nonlinear_arith)
                requires
                    0 <= h as int <= 0x8000_0000,
                    -0x8000_0000 <= p@[i as int] <= 0x8000_0000,
            ;
            assert(p@[i as int] == p.coeffs@[i as int] as int);
        }
        let c = h * p.coeffs[i];
        out.push(c);
        i = i + 1;
    }
    let r = RingElement { coeffs: out };
    assert(r@ =~= scale_seq(q, p@));
    r
}

/// Rounds each coefficient to 1 when it is closer to q/2 than to 0
/// (in magnitude, against the threshold `half_up(q)/2`), else to 0.
pub fn round_coefficients(f: &IntField, p: &RingElement) -> (r: RingElement)
    requires
        f.modulus_ok(),
    ensures
        r@ == round_seq(f.q as int, p@),
        is_bits(r@),
{
    let ghost q: int = f.q as int;
    let h = closest_integer_div_two(f.q);
    let t = h / 2;
    assert(t as int == round_threshold(q));
    let len = p.coeffs.len();
    let mut out: Vec<i64> = Vec::new();
    let mut i: usize = 0;
    while i < len
        invariant
            0 <= i <= len,
            len == p.coeffs@.len(),
            out@.len() == i,
            q == f.q as int,
            0 <= t,
            t as int == round_threshold(q),
            forall|j: int| 0 <= j < i ==> #[trigger] out@[j] as int == round_bit(q, p@[j]),
        decreases len - i,
    {
        let c = p.coeffs[i];
        let bit: i64 = if c > t || c < -t {
            1
        } else {
            0
        };
        proof {
            assert(p@[i as int] == p.coeffs@[i as int] as int);
            if c > t || c < -t {
                assert(abs(p@[i as int]) > round_threshold(q));
            } else {
                assert(abs(p@[i as int]) <= round_threshold(q));
            }
        }
        out.push(bit);
        i = i + 1;
    }
    let r = RingElement { coeffs: out };
    assert(r@ =~= round_seq(q, p@));
    r
}

/// Expands `p` to exactly `n` coefficients, appending zeros.
pub fn to_fixed_coeffs_vec(p: &RingElement, n: usize) -> (r: Vec<i64>)
    requires
        p@.len() <= n,
    ensures
        as_ints(r@) == pad_zeros(p@, n as int),
        r@.len() == n,
{
    let len = p.coeffs.len();
    let mut out: Vec<i64> = Vec::new();
    let mut i: usize = 0;
    while i < len
        invariant
            0 <= i <= len,
            len == p.coeffs@.len(),
            out@.len() == i,
            forall|j: int| 0 <= j < i ==> #[trigger] out@[j] == p.coeffs@[j],
        decreases len - i,
    {
        out.push(p.coeffs[i]);
        i = i + 1;
    }
    while out.len() < n
        invariant
            len <= out@.len() <= n,
            len == p.coeffs@.len(),
            forall|j: int| 0 <= j < len ==> #[trigger] out@[j] == p.coeffs@[j],
            forall|j: int| len <= j < out@.len() ==> #[trigger] out@[j] == 0,
        decreases n - out.len(),
    {
        out.push(0);
    }
    assert(as_ints(out@) =~= pad_zeros(p@, n as int));
    out
}

/// The negacyclic product of two well-formed elements: the plain
/// polynomial product reduced modulo X^n + 1 (but not yet modulo q).
pub fn ring_mul(f: &IntField, a: &RingElement, b: &RingElement) -> (r: RingElement)
    requires
        f.valid_spec(),
        a.wf(*f),
        b.wf(*f),
    ensures
        r@ == conv(a@, b@, f.n as int),
        r@.len() == f.n,
        all_bounded(r@, (f.n as int) * ((f.q as int / 2) * (f.q as int / 2))),
{
    let n = f.n;
    let ghost ni: int = n as int;
    let hq = f.q / 2;
    let ghost hqq: int = (hq as int) * (hq as int);
    let ghost big: int = ni * hqq;
    proof {
        assert(0 <= hqq && hqq <= (f.q as int) * (f.q as int)) by (nonlinear_arith)
            requires
                0 <= hq as int <= f.q as int,
                hqq == (hq as int) * (hq as int),
        ;
        assert(ni * hqq <= ni * ((f.q as int) * (f.q as int))) by (nonlinear_arith)
            requires
                0 <= ni,
                0 <= hqq <= (f.q as int) * (f.q as int),
        ;
        assert(ni * ((f.q as int) * (f.q as int)) == (f.n as int) * (f.q as int) * (f.q as int))
            by (nonlinear_arith)
            requires
                ni == f.n as int,
        ;
        assert(hqq <= ni * hqq) by (nonlinear_arith)
            requires
                1 <= ni,
                0 <= hqq,
        ;
        assert(8 * ni <= 8 * ni * (f.b as int) * (f.b as int)) by (nonlinear_arith)
            requires
                1 <= f.b as int,
                0 <= ni,
        ;
        assert(ni < 0x1000_0000);
    }
    let mut out: Vec<i64> = Vec::new();
    let mut k: usize = 0;
    while k < n
        invariant
            0 <= k <= n,
            n == f.n,
            ni == n as int,
            ni < 0x1000_0000,
            f.valid_spec(),
            a.wf(*f),
            b.wf(*f),
            hq as int == f.q as int / 2,
            hqq == (hq as int) * (hq as int),
            big == ni * hqq,
            0 <= hqq,
            hqq <= big,
            big <= i64::MAX as int,
            out@.len() == k,
            forall|x: int| 0 <= x < k ==> #[trigger] out@[x] as int == conv_at(a@, b@, ni, x),
        decreases n - k,
    {
        let ghost tf = conv_term_fn(a@, b@, ni, k as int);
        let mut acc: i64 = 0;
        let mut j: usize = 0;
        while j < n
            invariant
                0 <= j <= n,
                0 <= k < n,
                n == f.n,
                ni == n as int,
                ni < 0x1000_0000,
                f.valid_spec(),
                a.wf(*f),
                b.wf(*f),
                hq as int == f.q as int / 2,
                hqq == (hq as int) * (hq as int),
                big == ni * hqq,
                0 <= hqq,
                hqq <= big,
                big <= i64::MAX as int,
                tf == conv_term_fn(a@, b@, ni, k as int),
                acc as int == sum_terms(0, j as int, tf),
                -((j as int) * hqq) <= acc as int <= (j as int) * hqq,
            decreases n - j,
        {
            let ghost ji: int = j as int;
            let ghost ki: int = k as int;
            let aj = a.coeffs[j];
            let idx: usize = if j <= k {
                k - j
            } else {
                n + k - j
            };
            let bx = b.coeffs[idx];
            proof {
                assert(a@[ji] == a.coeffs@[ji] as int);
                assert(b@[idx as int] == b.coeffs@[idx as int] as int);
                assert(in_centered_range(f.q as int, a@[ji]));
                assert(in_centered_range(f.q as int, b@[idx as int]));
                assert(-hqq <= (aj as int) * (bx as int) <= hqq) by (nonlinear_arith)
                    requires
                        -(hq as int) <= aj as int <= hq as int,
                        -(hq as int) <= bx as int <= hq as int,
                        hqq == (hq as int) * (hq as int),
                ;
            }
            let prod = aj * bx;
            let term: i64 = if j <= k {
                prod
            } else {
                -prod
            };
            proof {
                assert(tf(ji) == conv_term(a@, b@, ni, ki, ji));
                assert(term as int == conv_term(a@, b@, ni, ki, ji));
                lemma_conv_partial_step(a@, b@, ni, ki, ji);
                lemma_mul_is_distributive_add_other_way(hqq, ji, 1);
                lemma_mul_inequality(ji + 1, ni, hqq);
            }
            acc = acc + term;
            j = j + 1;
        }
        proof {
            lemma_conv_term_bound(a@, b@, ni, k as int, f.q as int / 2, f.q as int / 2);
            assert(acc as int == conv_at(a@, b@, ni, k as int));
        }
        out.push(acc);
        k = k + 1;
    }
    let r = RingElement { coeffs: out };
    assert(r@ =~= conv(a@, b@, ni));
    assert forall|x: int| 0 <= x < r@.len() implies -big <= #[trigger] r@[x] <= big by {
        lemma_conv_term_bound(a@, b@, ni, x, f.q as int / 2, f.q as int / 2);
        assert((f.q as int / 2) * (f.q as int / 2) == hqq);
    }
    r
}

/// Modulo idempotence: reducing twice is the same as reducing once.
pub proof fn lemma_mod_coeffs_idempotent(q: int, p: Seq<int>)
    requires
        3 <= q,
        q % 2 == 1,
    ensures
        cmod_seq(q, cmod_seq(q, p)) == cmod_seq(q, p),
{
    assert forall|i: int| 0 <= i < p.len() implies #[trigger] cmod_seq(q, cmod_seq(q, p))[i]
        == cmod_seq(q, p)[i] by {
        crate::intfield::lemma_centered_range(q, p[i]);
        crate::intfield::lemma_centered_identity(q, centered(q, p[i]));
    }
    assert(cmod_seq(q, cmod_seq(q, p)) =~= cmod_seq(q, p));
}

/// Splitting a concatenation of two length-`n` halves returns the halves.
/// Together with the contracts of the `serialize` and `deserialize`
/// methods this says that a serialized key or ciphertext deserializes
/// back to the original.
pub proof fn lemma_concat_split_round_trip(x: Seq<int>, y: Seq<int>, n: int)
    requires
        x.len() == n,
        y.len() == n,
        0 <= n,
    ensures
        (x + y).len() == 2 * n,
        (x + y).subrange(0, n) == x,
        (x + y).subrange(n, 2 * n) == y,
{
    assert((x + y).subrange(0, n) =~= x);
    assert((x + y).subrange(n, 2 * n) =~= y);
}

/// Concatenates the coefficients of two elements, `x` first.
pub fn concat_coeffs(x: &RingElement, y: &RingElement) -> (r: Vec<i64>)
    ensures
        as_ints(r@) == x@ + y@,
        r@.len() == x@.len() + y@.len(),
{
    let mut out: Vec<i64> = Vec::new();
    let xl = x.coeffs.len();
    let mut i: usize = 0;
    while i < xl
        invariant
            0 <= i <= xl,
            xl == x.coeffs@.len(),
            out@.len() == i,
            forall|j: int| 0 <= j < i ==> #[trigger] out@[j] == x.coeffs@[j],
        decreases xl - i,
    {
        out.push(x.coeffs[i]);
        i = i + 1;
    }
    let yl = y.coeffs.len();
    let mut j: usize = 0;
    while j < yl
        invariant
            0 <= j <= yl,
            xl == x.coeffs@.len(),
            yl == y.coeffs@.len(),
            out@.len() == xl + j,
            forall|x2: int| 0 <= x2 < xl ==> #[trigger] out@[x2] == x.coeffs@[x2],
            forall|y2: int| 0 <= y2 < j ==> #[trigger] out@[xl + y2] == y.coeffs@[y2],
        decreases yl - j,
    {
        out.push(y.coeffs[j]);
        j = j + 1;
    }
    assert forall|i: int| xl <= i < xl + yl implies #[trigger] out@[i] == y.coeffs@[i - xl] by {
        assert(out@[xl + (i - xl)] == y.coeffs@[i - xl]);
    }
    assert(as_ints(out@) =~= x@ + y@);
    out
}

/// Splits a vector of `2n` coefficients into its two halves.
pub fn split_coeffs(data: &Vec<i64>, n: usize) -> (r: (RingElement, RingElement))
    requires
        data@.len() == 2 * n,
    ensures
        r.0@ == as_ints(data@).subrange(0, n as int),
        r.1@ == as_ints(data@).subrange(n as int, 2 * (n as int)),
        r.0@.len() == n,
        r.1@.len() == n,
{
    let mut first: Vec<i64> = Vec::new();
    let mut i: usize = 0;
    while i < n
        invariant
            0 <= i <= n,
            data@.len() == 2 * n,
            first@.len() == i,
            forall|j: int| 0 <= j < i ==> #[trigger] first@[j] == data@[j],
        decreases n - i,
    {
        first.push(data[i]);
        i = i + 1;
    }
    let mut second: Vec<i64> = Vec::new();
    let total = data.len();
    let mut j: usize = n;
    while j < total
        invariant
            n <= j <= 2 * n,
            total == data@.len(),
            data@.len() == 2 * n,
            second@.len() == j - n,
            forall|x: int| 0 <= x < j - n ==> #[trigger] second@[x] == data@[n + x],
        decreases 2 * n - j,
    {
        second.push(data[j]);
        j = j + 1;
    }
    let a = RingElement { coeffs: first };
    let b = RingElement { coeffs: second };
    assert(a@ =~= as_ints(data@).subrange(0, n as int));
    assert(b@ =~= as_ints(data@).subrange(n as int, 2 * (n as int)));
    (a, b)
}

/// With valid parameters `b <= q/2`, so a small element is well-formed.
pub proof fn lemma_small_is_wf(f: IntField, p: RingElement)
    requires
        f.valid_spec(),
        p.small(f),
    ensures
        p.wf(f),
{
    assert(0 <= 8 * (f.n as int) * (f.b as int) * (f.b as int)) by (nonlinear_arith)
        requires
            1 <= f.n as int,
            1 <= f.b as int,
    ;
    assert(4 * (f.b as int) < f.q as int);
    assert forall|i: int| 0 <= i < p@.len() implies in_centered_range(
        f.q as int,
        #[trigger] p@[i],
    ) by {
        assert(-(f.b as int) <= p@[i] <= f.b as int);
    }
}

/// A polynomial of `n` coefficients drawn independently and uniformly
/// from `[-bound, bound]`.
pub fn rand_polynomial_within(rng: &mut rand::rngs::ThreadRng, bound: i64, n: usize) -> (r:
    RingElement)
    requires
        0 <= bound,
    ensures
        r@.len() == n,
        all_bounded(r@, bound as int),
{
    let mut out: Vec<i64> = Vec::new();
    let mut i: usize = 0;
    while i < n
        invariant
            0 <= i <= n,
            out@.len() == i,
            0 <= bound,
            forall|j: int| 0 <= j < i ==> -(bound as int) <= #[trigger] out@[j] as int
                <= bound as int,
        decreases n - i,
    {
        let c = sample_range(rng, -bound, bound);
        out.push(c);
        i = i + 1;
    }
    let r = RingElement { coeffs: out };
    assert forall|j: int| 0 <= j < r@.len() implies -(bound as int) <= #[trigger] r@[j]
        <= bound as int by {
        assert(r@[j] == out@[j] as int);
    }
    r
}

/// A polynomial drawn uniformly from the centred range of q:
/// every coefficient in `[-q/2, q/2]`.
pub fn rand_polynomial(f: &IntField, rng: &mut rand::rngs::ThreadRng) -> (r: RingElement)
    requires
        f.modulus_ok(),
    ensures
        r@.len() == f.n,
        all_bounded(r@, f.q as int / 2),
        r.wf(*f),
{
    let bound = f.q / 2;
    let r = rand_polynomial_within(rng, bound, f.n);
    assert forall|j: int| 0 <= j < r@.len() implies in_centered_range(
        f.q as int,
        #[trigger] r@[j],
    ) by {}
    r
}

/// A small polynomial: every coefficient uniform in `[-b, b]`.
pub fn small_polynomial(f: &IntField, rng: &mut rand::rngs::ThreadRng) -> (r: RingElement)
    requires
        0 <= f.b,
    ensures
        r@.len() == f.n,
        all_bounded(r@, f.b as int),
        r.small(*f),
{
    rand_polynomial_within(rng, f.b, f.n)
}

} // verus!
