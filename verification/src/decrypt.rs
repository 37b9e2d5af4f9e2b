//! The decryption key and the decryption method.

use vstd::prelude::*;

verus! {

use crate::ciphertext::CipherText;
use crate::convolution::conv;
use crate::error::RlweError;
use crate::intfield::IntField;
use crate::polynomial::RingElement;
use crate::polynomial::as_ints;
use crate::polynomial::cmod_seq;
use crate::polynomial::lemma_small_is_wf;
use crate::polynomial::modulo_coefficients;
use crate::polynomial::pad_zeros;
use crate::polynomial::ring_mul;
use crate::polynomial::ring_sub;
use crate::polynomial::round_coefficients;
use crate::polynomial::round_seq;
use crate::polynomial::sub_seq;
use crate::polynomial::to_fixed_coeffs_vec;

/// What decryption computes: `round(mod(v - mod(u * s)))`, bit by bit.
pub open spec fn decrypt_spec(f: IntField, s: Seq<int>, u: Seq<int>, v: Seq<int>) -> Seq<int> {
    round_seq(
        f.q as int,
        cmod_seq(f.q as int, sub_seq(v, cmod_seq(f.q as int, conv(u, s, f.n as int)))),
    )
}

/// The decryption (secret) key: the small polynomial `s`.
#[derive(Debug, Clone, PartialEq, Eq)]
pub struct DecryptKey {
    pub params: IntField,
    pub s: RingElement,
}

impl DecryptKey {
    /// Valid parameters and a small secret.
    pub open spec fn wf(self) -> bool {
        &&& self.params.valid_spec()
        &&& self.s.small(self.params)
    }

    /// Decrypts a ciphertext into a vector of `n` bits. The first bits
    /// are the message, the rest zeros (for a ciphertext made by
    /// `encrypt` under matching keys).
    pub fn decrypt(&self, c: &CipherText) -> (r: Vec<i64>)
        requires
            self.wf(),
            c.wf(self.params),
        ensures
            as_ints(r@) == decrypt_spec(self.params, self.s@, c.u@, c.v@),
            r@.len() == self.params.n,
    {
        let f = self.params;
        proof {
            lemma_small_is_wf(f, self.s);
        }
        let u_s = ring_mul(&f, &c.u, &self.s);
        let u_s_mod = modulo_coefficients(&f, &u_s);
        proof {
            assert forall|i: int| 0 <= i < c.v@.len() implies i64::MIN <= #[trigger] c.v@[i]
                - u_s_mod@[i] <= i64::MAX by {}
        }
        let m1 = modulo_coefficients(&f, &ring_sub(&c.v, &u_s_mod));
        let mb = round_coefficients(&f, &m1);
        let out = to_fixed_coeffs_vec(&mb, f.n);
        proof {
            assert(pad_zeros(mb@, f.n as int) =~= mb@);
        }
        out
    }

    /// Serializes as the `n` coefficients of `s`.
    pub fn serialize(&self) -> (r: Vec<i64>)
        requires
            self.s@.len() == self.params.n,
        ensures
            as_ints(r@) == self.s@,
            r@.len() == self.params.n,
    {
        let out = to_fixed_coeffs_vec(&self.s, self.params.n);
        proof {
            assert(pad_zeros(self.s@, self.params.n as int) =~= self.s@);
        }
        out
    }

    /// Rebuilds a key from exactly `n` coefficients; any other length is
    /// rejected with the expected and observed counts.
    pub fn deserialize(f: &IntField, data: Vec<i64>) -> (r: Result<DecryptKey, RlweError>)
        ensures
            match r {
                Ok(k) => {
                    &&& data@.len() == f.n
                    &&& k.params == *f
                    &&& k.s@ == as_ints(data@)
                },
                Err(e) => {
                    &&& data@.len() != f.n
                    &&& e == (RlweError::DeserializationLengthMismatch {
                        expected: f.n,
                        actual: data@.len() as usize,
                    })
                },
            },
    {
        if data.len() != f.n {
            return Err(
                RlweError::DeserializationLengthMismatch { expected: f.n, actual: data.len() },
            );
        }
        Ok(DecryptKey { params: *f, s: RingElement { coeffs: data } })
    }
}

/// Serialization round trip for the decryption key: serializing pads `s`
/// to its full length `n` — a no-op for a well-formed key — and by the
/// contract of `deserialize`, an `n`-length payload deserializes to
/// exactly those coefficients, restoring the original secret.
pub proof fn lemma_decrypt_key_round_trip(k: DecryptKey)
    requires
        k.s@.len() == k.params.n,
    ensures
        pad_zeros(k.s@, k.params.n as int) == k.s@,
{
    assert(pad_zeros(k.s@, k.params.n as int) =~= k.s@);
}

} // verus!
