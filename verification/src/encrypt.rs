//! The encryption key and the encryption method.

use vstd::prelude::*;

verus! {

use crate::ciphertext::CipherText;
use crate::error::RlweError;
use crate::intfield::IntField;
use crate::message::Message;
use crate::polynomial::RingElement;
use crate::polynomial::all_bounded;
use crate::polynomial::as_ints;
use crate::polynomial::add_seq;
use crate::polynomial::cmod_seq;
use crate::polynomial::concat_coeffs;
use crate::polynomial::half_up;
use crate::polynomial::lemma_small_is_wf;
use crate::polynomial::modulo_coefficients;
use crate::polynomial::pad_zeros;
use crate::polynomial::ring_add;
use crate::polynomial::ring_mul;
use crate::polynomial::scale_coefficients;
use crate::polynomial::scale_seq;
use crate::polynomial::small_polynomial;
use crate::polynomial::split_coeffs;
use crate::noisy_product;

/// The second half of a ciphertext: the reduced product `t * r` plus the
/// noise `e3`, reduced, plus the message scaled by `[q/2]`, reduced.
pub open spec fn encrypt_v_spec(
    f: IntField,
    t: Seq<int>,
    r: Seq<int>,
    e3: Seq<int>,
    m: Seq<int>,
) -> Seq<int> {
    cmod_seq(
        f.q as int,
        add_seq(noisy_product(f, t, r, e3), scale_seq(f.q as int, pad_zeros(m, f.n as int))),
    )
}

/// The encryption (public) key: the pair (a, t) with `t` congruent to
/// `a * s + e` for the secret small `s` and noise `e`.
#[derive(Debug, Clone, PartialEq, Eq)]
pub struct EncryptKey {
    pub params: IntField,
    pub a: RingElement,
    pub t: RingElement,
}

impl EncryptKey {
    /// Valid parameters and both polynomials in centred form.
    pub open spec fn wf(self) -> bool {
        &&& self.params.valid_spec()
        &&& self.a.wf(self.params)
        &&& self.t.wf(self.params)
    }

    /// Encrypts a message of at most `n` bits.
    ///
    /// The ciphertext is `u = a*r + e2` and `v = t*r + e3 + [q/2]*m`, all
    /// products negacyclic, every step reduced to centred form, for some
    /// fresh small `r`, `e2`, `e3`.
    pub fn encrypt(&self, rng: &mut rand::rngs::ThreadRng, m: &Message) -> (c: CipherText)
        requires
            self.wf(),
            m.valid_for(self.params.n as int),
        ensures
            c.wf(self.params),
            exists|rr: Seq<int>, e2: Seq<int>, e3: Seq<int>|
                {
                    &&& rr.len() == self.params.n
                    &&& all_bounded(rr, self.params.b as int)
                    &&& e2.len() == self.params.n
                    &&& all_bounded(e2, self.params.b as int)
                    &&& e3.len() == self.params.n
                    &&& all_bounded(e3, self.params.b as int)
                    &&& c.u@ == #[trigger] noisy_product(self.params, self.a@, rr, e2)
                    &&& c.v@ == #[trigger] encrypt_v_spec(self.params, self.t@, rr, e3, m@)
                },
    {
        let f = self.params;
        let ghost qi: int = f.q as int;
        let ghost ni: int = f.n as int;
        let r_poly = small_polynomial(&f, rng);
        let e2 = small_polynomial(&f, rng);
        let e3 = small_polynomial(&f, rng);
        proof {
            lemma_small_is_wf(f, r_poly);
        }
        // u = a * r + e2, reduced at each step
        let a_r = ring_mul(&f, &self.a, &r_poly);
        let a_r_mod = modulo_coefficients(&f, &a_r);
        proof {
            assert forall|i: int| 0 <= i < a_r_mod@.len() implies i64::MIN
                <= #[trigger] a_r_mod@[i] + e2@[i] <= i64::MAX by {
                assert(-(f.b as int) <= e2@[i] <= f.b as int);
            }
        }
        let u = modulo_coefficients(&f, &ring_add(&a_r_mod, &e2));
        // M = [q/2] * (m padded to n coefficients)
        let m_embedded = embed_message(m, f.n);
        proof {
            assert forall|i: int| 0 <= i < m_embedded@.len() implies -qi
                <= #[trigger] m_embedded@[i] <= qi by {
                assert(m_embedded@[i] == pad_zeros(m@, ni)[i]);
            }
        }
        let m_scaled = scale_coefficients(&f, &m_embedded);
        // v = t * r + e3 + M, reduced at each step
        let t_r = ring_mul(&f, &self.t, &r_poly);
        let t_r_mod = modulo_coefficients(&f, &t_r);
        proof {
            assert forall|i: int| 0 <= i < t_r_mod@.len() implies i64::MIN
                <= #[trigger] t_r_mod@[i] + e3@[i] <= i64::MAX by {
                assert(-(f.b as int) <= e3@[i] <= f.b as int);
            }
        }
        let t_r_e3 = modulo_coefficients(&f, &ring_add(&t_r_mod, &e3));
        proof {
            assert forall|i: int| 0 <= i < t_r_e3@.len() implies i64::MIN
                <= #[trigger] t_r_e3@[i] + m_scaled@[i] <= i64::MAX by {
                let bit = pad_zeros(m@, ni)[i];
                assert(m_scaled@[i] == half_up(qi) * bit);
                assert(bit == 0 || bit == 1);
                if bit == 0 {
                    assert(half_up(qi) * 0 == 0) by (nonlinear_arith);
                } else {
                    assert(half_up(qi) * 1 == half_up(qi)) by (nonlinear_arith);
                }
            }
        }
        let v = modulo_coefficients(&f, &ring_add(&t_r_e3, &m_scaled));
        let c = CipherText { u, v };
        proof {
            assert(c.u@ == noisy_product(f, self.a@, r_poly@, e2@));
            assert(c.v@ == encrypt_v_spec(f, self.t@, r_poly@, e3@, m@));
        }
        c
    }

    /// Serializes as the coefficients of `a` followed by those of `t`.
    pub fn serialize(&self) -> (r: Vec<i64>)
        ensures
            as_ints(r@) == self.a@ + self.t@,
            r@.len() == self.a@.len() + self.t@.len(),
    {
        concat_coeffs(&self.a, &self.t)
    }

    /// Rebuilds a key from `2n` coefficients; any other length is
    /// rejected with the expected and observed counts.
    pub fn deserialize(f: &IntField, data: Vec<i64>) -> (r: Result<EncryptKey, RlweError>)
        requires
            2 * (f.n as int) <= usize::MAX as int,
        ensures
            match r {
                Ok(k) => {
                    &&& data@.len() == 2 * (f.n as int)
                    &&& k.params == *f
                    &&& k.a@ == as_ints(data@).subrange(0, f.n as int)
                    &&& k.t@ == as_ints(data@).subrange(f.n as int, 2 * (f.n as int))
                    &&& k.a@.len() == f.n
                    &&& k.t@.len() == f.n
                },
                Err(e) => {
                    &&& data@.len() != 2 * (f.n as int)
                    &&& e == (RlweError::DeserializationLengthMismatch {
                        expected: (2 * f.n) as usize,
                        actual: data@.len() as usize,
                    })
                },
            },
    {
        let n = f.n;
        if data.len() != 2 * n {
            return Err(
                RlweError::DeserializationLengthMismatch { expected: 2 * n, actual: data.len() },
            );
        }
        let (a, t) = split_coeffs(&data, n);
        Ok(EncryptKey { params: *f, a, t })
    }
}

/// Serialization round trip for the encryption key: the serialized form
/// of a key whose halves hold `n` coefficients each has length `2n`, and
/// its two halves are exactly `a` and `t` — so by the contract of
/// `deserialize`, deserializing it returns a key equal to the original.
pub proof fn lemma_encrypt_key_round_trip(k: EncryptKey)
    requires
        k.a@.len() == k.params.n,
        k.t@.len() == k.params.n,
    ensures
        (k.a@ + k.t@).len() == 2 * (k.params.n as int),
        (k.a@ + k.t@).subrange(0, k.params.n as int) == k.a@,
        (k.a@ + k.t@).subrange(k.params.n as int, 2 * (k.params.n as int)) == k.t@,
{
    crate::polynomial::lemma_concat_split_round_trip(k.a@, k.t@, k.params.n as int);
}

/// The message as a ring element: its bits as low coefficients, zeros above.
fn embed_message(m: &Message, n: usize) -> (r: RingElement)
    requires
        m@.len() <= n,
    ensures
        r@ == pad_zeros(m@, n as int),
        r@.len() == n,
{
    let len = m.data.len();
    let mut out: Vec<i64> = Vec::new();
    let mut i: usize = 0;
    while i < n
        invariant
            0 <= i <= n,
            len == m.data@.len(),
            len <= n,
            out@.len() == i,
            forall|j: int| 0 <= j < i && j < len ==> #[trigger] out@[j] == m.data@[j],
            forall|j: int| len <= j < i ==> #[trigger] out@[j] == 0,
        decreases n - i,
    {
        if i < len {
            out.push(m.data[i]);
        } else {
            out.push(0);
        }
        i = i + 1;
    }
    let r = RingElement { coeffs: out };
    assert(r@ =~= pad_zeros(m@, n as int));
    r
}

} // verus!
