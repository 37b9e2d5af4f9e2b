//! Round-trip correctness: decryption inverts encryption.
//!
//! The main result, `lemma_round_trip`, states it over the spec-level
//! models that the contracts of `key_gen`, `encrypt` and `decrypt` use:
//! whatever values the sampler returned for the secret and the noise,
//! decryption of an encryption of `m` yields `m` padded with zeros.

use vstd::prelude::*;

verus! {

use crate::intfield::IntField;
use crate::intfield::centered;
use crate::intfield::in_centered_range;
use crate::intfield::lemma_centered_range;
use crate::intfield::lemma_centered_identity;
use crate::intfield::lemma_centered_congruent;
use crate::convolution::conv;
use crate::convolution::congruent;
use crate::convolution::congruent_seq;
use crate::convolution::lemma_conv_bound;
use crate::convolution::lemma_conv_congruent_left;
use crate::convolution::lemma_conv_linear_left;
use crate::convolution::lemma_conv_swap_factors;
use crate::polynomial::add_seq;
use crate::polynomial::sub_seq;
use crate::polynomial::cmod_seq;
use crate::polynomial::scale_seq;
use crate::polynomial::round_seq;
use crate::polynomial::round_bit;
use crate::polynomial::round_threshold;
use crate::polynomial::half_up;
use crate::polynomial::pad_zeros;
use crate::polynomial::all_bounded;
use crate::polynomial::is_bits;
use crate::noisy_product;
use crate::encrypt::encrypt_v_spec;
use crate::decrypt::decrypt_spec;
use vstd::arithmetic::div_mod::lemma_fundamental_div_mod;
use vstd::arithmetic::div_mod::lemma_mod_bound;
use vstd::arithmetic::div_mod::lemma_small_mod;
use vstd::arithmetic::div_mod::lemma_add_mod_noop;
use vstd::arithmetic::div_mod::lemma_sub_mod_noop;
use vstd::math::abs;

proof fn lemma_congruent_seq_refl(q: int, x: Seq<int>)
    ensures
        congruent_seq(q, x, x),
{
}

proof fn lemma_congruent_seq_trans(q: int, x: Seq<int>, y: Seq<int>, z: Seq<int>)
    requires
        congruent_seq(q, x, y),
        congruent_seq(q, y, z),
    ensures
        congruent_seq(q, x, z),
{
    assert forall|i: int| 0 <= i < x.len() implies congruent(q, x[i], z[i]) by {
        assert(congruent(q, x[i], y[i]));
        assert(congruent(q, y[i], z[i]));
    }
}

/// Centred reduction leaves every coefficient congruent, and in range.
proof fn lemma_cmod_seq_congruent(q: int, s: Seq<int>)
    requires
        3 <= q,
        q % 2 == 1,
    ensures
        congruent_seq(q, cmod_seq(q, s), s),
{
    assert forall|i: int| 0 <= i < s.len() implies congruent(q, cmod_seq(q, s)[i], s[i]) by {
        lemma_centered_range(q, s[i]);
    }
}

/// Addition respects coefficient-wise congruence.
proof fn lemma_add_seq_congruent(q: int, x: Seq<int>, x2: Seq<int>, y: Seq<int>, y2: Seq<int>)
    requires
        0 < q,
        congruent_seq(q, x, x2),
        congruent_seq(q, y, y2),
        x.len() == y.len(),
        x2.len() == y2.len(),
    ensures
        congruent_seq(q, add_seq(x, y), add_seq(x2, y2)),
{
    assert forall|i: int| 0 <= i < x.len() implies congruent(
        q,
        add_seq(x, y)[i],
        add_seq(x2, y2)[i],
    ) by {
        lemma_add_mod_noop(x[i], y[i], q);
        lemma_add_mod_noop(x2[i], y2[i], q);
    }
}

/// Subtraction respects coefficient-wise congruence.
proof fn lemma_sub_seq_congruent(q: int, x: Seq<int>, x2: Seq<int>, y: Seq<int>, y2: Seq<int>)
    requires
        0 < q,
        congruent_seq(q, x, x2),
        congruent_seq(q, y, y2),
        x.len() == y.len(),
        x2.len() == y2.len(),
    ensures
        congruent_seq(q, sub_seq(x, y), sub_seq(x2, y2)),
{
    assert forall|i: int| 0 <= i < x.len() implies congruent(
        q,
        sub_seq(x, y)[i],
        sub_seq(x2, y2)[i],
    ) by {
        lemma_sub_mod_noop(x[i], y[i], q);
        lemma_sub_mod_noop(x2[i], y2[i], q);
    }
}

/// Congruent sequences have equal centred reductions.
proof fn lemma_cmod_seq_equal(q: int, x: Seq<int>, y: Seq<int>)
    requires
        3 <= q,
        q % 2 == 1,
        congruent_seq(q, x, y),
    ensures
        cmod_seq(q, x) == cmod_seq(q, y),
{
    assert forall|i: int| 0 <= i < x.len() implies #[trigger] cmod_seq(q, x)[i] == cmod_seq(
        q,
        y,
    )[i] by {
        lemma_centered_congruent(q, x[i], y[i]);
    }
    assert(cmod_seq(q, x) =~= cmod_seq(q, y));
}

/// The decoding step: a bit scaled by `[q/2]`, plus noise of magnitude at
/// most `nb`, rounds back to the bit — provided the noise budget clears
/// the threshold with a margin of one on either side (`4*nb < q - 4`).
proof fn lemma_decode_bit(q: int, bit: int, nu: int, nb: int)
    requires
        3 <= q,
        q % 2 == 1,
        bit == 0 || bit == 1,
        0 <= nb,
        -nb <= nu <= nb,
        4 * nb < q - 4,
    ensures
        round_bit(q, centered(q, half_up(q) * bit + nu)) == bit,
{
    let h = q / 2;
    let hu = half_up(q);
    let thr = round_threshold(q);
    lemma_fundamental_div_mod(q, 2);
    assert(q == 2 * h + 1);
    lemma_add_mod_noop(q, 1, 2);
    lemma_fundamental_div_mod(q + 1, 2);
    assert(hu == h + 1);
    lemma_fundamental_div_mod(hu, 2);
    lemma_mod_bound(hu, 2);
    assert(hu == 2 * thr + hu % 2);
    // so 2*thr <= hu <= 2*thr + 1, and 2*nb <= h - 2
    assert(4 * nb <= 2 * h - 4);
    if bit == 0 {
        assert(hu * 0 == 0) by (nonlinear_arith);
        assert(in_centered_range(q, nu));
        lemma_centered_identity(q, nu);
        assert(2 * nb <= h - 2 && h <= 2 * thr + 1);
        assert(abs(nu) <= nb);
        assert(nb < thr || nb == thr);
        assert(!(abs(nu) > thr));
    } else {
        assert(hu * 1 == hu) by (nonlinear_arith);
        let x = hu + nu;
        if nu >= 0 {
            assert(0 <= x < q);
            lemma_small_mod(x as nat, q as nat);
            assert(x % q == x);
            assert(x > h);
            assert(centered(q, x) == x - q);
            assert(x - q == nu - h);
            assert(abs(nu - h) == h - nu);
            assert(2 * (h - nu) >= 2 * h - (h - 2));
            assert(h - nu > thr);
        } else {
            assert(0 <= x <= h);
            lemma_small_mod(x as nat, q as nat);
            assert(x % q == x);
            assert(centered(q, x) == x);
            assert(abs(x) == x);
            assert(2 * x >= 2 * (h + 1) - (h - 2));
            assert(x > thr);
        }
    }
}

/// Round-trip correctness of the scheme.
///
/// For parameters satisfying `valid` with a margin of one unit on each
/// side of the q/4 threshold, and for every outcome of the sampler —
/// any `a` in centred form, any small `s`, `e` (the key pair), any small
/// `rr`, `e2`, `e3` (the encryption) — decrypting the encryption of a
/// message `m` of at most `n` bits returns exactly `m` padded with zeros
/// to length `n`.
pub proof fn lemma_round_trip(
    f: IntField,
    a: Seq<int>,
    s: Seq<int>,
    e: Seq<int>,
    rr: Seq<int>,
    e2: Seq<int>,
    e3: Seq<int>,
    m: Seq<int>,
)
    requires
        f.valid_spec(),
        8 * (f.n as int) * (f.b as int) * (f.b as int) + 4 * (f.b as int) < f.q as int - 4,
        a.len() == f.n,
        s.len() == f.n,
        all_bounded(s, f.b as int),
        e.len() == f.n,
        all_bounded(e, f.b as int),
        rr.len() == f.n,
        all_bounded(rr, f.b as int),
        e2.len() == f.n,
        all_bounded(e2, f.b as int),
        e3.len() == f.n,
        all_bounded(e3, f.b as int),
        is_bits(m),
        m.len() <= f.n,
    ensures
        decrypt_spec(
            f,
            s,
            noisy_product(f, a, rr, e2),
            encrypt_v_spec(f, noisy_product(f, a, s, e), rr, e3, m),
        ) == pad_zeros(m, f.n as int),
{
    let q = f.q as int;
    let n = f.n as int;
    let b = f.b as int;
    let t = noisy_product(f, a, s, e);
    let u = noisy_product(f, a, rr, e2);
    let v = encrypt_v_spec(f, t, rr, e3, m);
    let mm = pad_zeros(m, n);
    let ms = scale_seq(q, mm);

    // t is congruent to conv(a, s) + e.
    let as_conv = conv(a, s, n);
    let t0 = add_seq(as_conv, e);
    lemma_cmod_seq_congruent(q, as_conv);
    lemma_congruent_seq_refl(q, e);
    lemma_add_seq_congruent(q, cmod_seq(q, as_conv), as_conv, e, e);
    lemma_cmod_seq_congruent(q, add_seq(cmod_seq(q, as_conv), e));
    lemma_congruent_seq_trans(q, t, add_seq(cmod_seq(q, as_conv), e), t0);

    // u is congruent to conv(a, rr) + e2.
    let ar_conv = conv(a, rr, n);
    let u0 = add_seq(ar_conv, e2);
    lemma_cmod_seq_congruent(q, ar_conv);
    lemma_congruent_seq_refl(q, e2);
    lemma_add_seq_congruent(q, cmod_seq(q, ar_conv), ar_conv, e2, e2);
    lemma_cmod_seq_congruent(q, add_seq(cmod_seq(q, ar_conv), e2));
    lemma_congruent_seq_trans(q, u, add_seq(cmod_seq(q, ar_conv), e2), u0);

    // conv(t, rr) is congruent to conv(conv(a,s), rr) + conv(e, rr).
    let trr = conv(t, rr, n);
    lemma_conv_congruent_left(q, t, t0, rr, n);
    lemma_conv_linear_left(as_conv, e, t0, rr, n);
    let p_asr = conv(as_conv, rr, n);
    let err = conv(e, rr, n);
    assert(conv(t0, rr, n) =~= add_seq(p_asr, err));
    lemma_congruent_seq_trans(q, trr, conv(t0, rr, n), add_seq(p_asr, err));

    // conv(u, s) is congruent to conv(conv(a,rr), s) + conv(e2, s),
    // and conv(conv(a,rr), s) equals conv(conv(a,s), rr) exactly.
    let uss = conv(u, s, n);
    lemma_conv_congruent_left(q, u, u0, s, n);
    lemma_conv_linear_left(ar_conv, e2, u0, s, n);
    let p_ars = conv(ar_conv, s, n);
    let e2s = conv(e2, s, n);
    assert(conv(u0, s, n) =~= add_seq(p_ars, e2s));
    lemma_congruent_seq_trans(q, uss, conv(u0, s, n), add_seq(p_ars, e2s));
    lemma_conv_swap_factors(a, s, rr, n);
    assert(p_asr == p_ars);

    // v is congruent to (conv(conv(a,s),rr) + conv(e,rr)) + e3 + ms.
    lemma_cmod_seq_congruent(q, trr);
    lemma_congruent_seq_refl(q, e3);
    lemma_add_seq_congruent(q, cmod_seq(q, trr), trr, e3, e3);
    lemma_cmod_seq_congruent(q, add_seq(cmod_seq(q, trr), e3));
    lemma_congruent_seq_trans(
        q,
        noisy_product(f, t, rr, e3),
        add_seq(cmod_seq(q, trr), e3),
        add_seq(trr, e3),
    );
    lemma_congruent_seq_refl(q, ms);
    lemma_add_seq_congruent(q, noisy_product(f, t, rr, e3), add_seq(trr, e3), ms, ms);
    lemma_cmod_seq_congruent(q, add_seq(noisy_product(f, t, rr, e3), ms));
    lemma_congruent_seq_trans(
        q,
        v,
        add_seq(noisy_product(f, t, rr, e3), ms),
        add_seq(add_seq(trr, e3), ms),
    );
    lemma_add_seq_congruent(q, trr, add_seq(p_asr, err), e3, e3);
    lemma_congruent_seq_refl(q, add_seq(trr, e3));
    lemma_add_seq_congruent(q, add_seq(trr, e3), add_seq(add_seq(p_asr, err), e3), ms, ms);
    let v1 = add_seq(add_seq(add_seq(p_asr, err), e3), ms);
    lemma_congruent_seq_trans(q, v, add_seq(add_seq(trr, e3), ms), v1);

    // The inner value of decryption is congruent to ms + noise.
    let x1 = add_seq(p_ars, e2s);
    lemma_cmod_seq_congruent(q, uss);
    lemma_congruent_seq_trans(q, cmod_seq(q, uss), uss, x1);
    let inner = sub_seq(v, cmod_seq(q, uss));
    lemma_sub_seq_congruent(q, v, v1, cmod_seq(q, uss), x1);
    let noise = add_seq(sub_seq(err, e2s), e3);
    let target = add_seq(ms, noise);
    assert forall|i: int| 0 <= i < n implies #[trigger] sub_seq(v1, x1)[i] == target[i] by {
        assert(v1[i] == ((p_asr[i] + err[i]) + e3[i]) + ms[i]);
        assert(x1[i] == p_ars[i] + e2s[i]);
        assert(target[i] == ms[i] + ((err[i] - e2s[i]) + e3[i]));
    }
    assert(sub_seq(v1, x1) =~= target);
    lemma_congruent_seq_trans(q, inner, sub_seq(v1, x1), target);

    // Noise bound: every coefficient of noise is within 2*n*b^2 + b.
    lemma_conv_bound(e, rr, n, b, b);
    lemma_conv_bound(e2, s, n, b, b);
    let nbt = 2 * (n * (b * b)) + b;
    assert(4 * nbt < q - 4) by {
        assert(8 * (n * (b * b)) == 8 * n * b * b) by (nonlinear_arith);
    }

    // Decode each coefficient.
    lemma_cmod_seq_equal(q, inner, target);
    let reduced = cmod_seq(q, target);
    assert forall|i: int| 0 <= i < n implies #[trigger] round_seq(q, reduced)[i] == mm[i] by {
        assert(target[i] == half_up(q) * mm[i] + noise[i]);
        assert(mm[i] == 0 || mm[i] == 1);
        assert(-(n * (b * b)) <= err[i] <= n * (b * b));
        assert(-(n * (b * b)) <= e2s[i] <= n * (b * b));
        assert(-b <= e3[i] <= b);
        assert(-nbt <= noise[i] <= nbt);
        lemma_decode_bit(q, mm[i], noise[i], nbt);
    }
    assert(decrypt_spec(f, s, u, v) == round_seq(q, cmod_seq(q, inner)));
    assert(round_seq(q, reduced) =~= mm);
}

} // verus!
