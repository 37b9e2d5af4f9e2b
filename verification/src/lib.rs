//! A textbook Ring-Learning-With-Errors (RLWE) public-key encryption
//! scheme over the quotient ring Z_q[X]/(X^N + 1): key generation,
//! encryption and decryption, with machine-checked contracts and a proof
//! that decryption inverts encryption.

use vstd::prelude::*;

pub mod ciphertext;
pub mod convolution;
pub mod correctness;
pub mod decrypt;
pub mod encrypt;
pub mod error;
pub mod intfield;
pub mod message;
pub mod polynomial;
pub mod rng;
pub mod sums;

pub use ciphertext::CipherText;
pub use decrypt::DecryptKey;
pub use encrypt::EncryptKey;
pub use error::RlweError;
pub use intfield::IntField;
pub use message::Message;

verus! {

use crate::convolution::conv;
use crate::polynomial::add_seq;
use crate::polynomial::all_bounded;
use crate::polynomial::cmod_seq;
use crate::polynomial::lemma_small_is_wf;
use crate::polynomial::modulo_coefficients;
use crate::polynomial::rand_polynomial;
use crate::polynomial::ring_add;
use crate::polynomial::ring_mul;
use crate::polynomial::small_polynomial;

/// The shape shared by the public key's `t` and the ciphertext's `u`:
/// the reduced negacyclic product of `x` and `y`, plus the noise `e`,
/// reduced again.
pub open spec fn noisy_product(f: IntField, x: Seq<int>, y: Seq<int>, e: Seq<int>) -> Seq<int> {
    cmod_seq(f.q as int, add_seq(cmod_seq(f.q as int, conv(x, y, f.n as int)), e))
}

/// Generates a key pair from the parameters `f`: a uniform `a`, a small
/// secret `s` and small noise `e`, with `t = mod(mod(a * s) + e)`.
pub fn key_gen(f: &IntField, rng: &mut rand::rngs::ThreadRng) -> (keys: (EncryptKey, DecryptKey))
    requires
        f.valid_spec(),
    ensures
        keys.0.params == *f,
        keys.1.params == *f,
        keys.0.wf(),
        keys.1.wf(),
        exists|e: Seq<int>|
            {
                &&& e.len() == f.n
                &&& all_bounded(e, f.b as int)
                &&& keys.0.t@ == #[trigger] noisy_product(*f, keys.0.a@, keys.1.s@, e)
            },
{
    let a = rand_polynomial(f, rng);
    let s = small_polynomial(f, rng);
    let e = small_polynomial(f, rng);
    proof {
        lemma_small_is_wf(*f, s);
    }
    let a_s = ring_mul(f, &a, &s);
    let a_s_mod = modulo_coefficients(f, &a_s);
    proof {
        assert forall|i: int| 0 <= i < a_s_mod@.len() implies i64::MIN <= #[trigger] a_s_mod@[i]
            + e@[i] <= i64::MAX by {
            assert(-(f.b as int) <= e@[i] <= f.b as int);
        }
    }
    let t = modulo_coefficients(f, &ring_add(&a_s_mod, &e));
    let ek = EncryptKey { params: *f, a, t };
    let dk = DecryptKey { params: *f, s };
    proof {
        assert(ek.t@ == noisy_product(*f, ek.a@, dk.s@, e@));
    }
    (ek, dk)
}

/// A pre-defined field of integers with prime modulus 3329 (and noise
/// bound 1, ring degree 256).
#[derive(Debug, Clone, PartialEq, Eq, Structural)]
pub struct ZqI32;

impl ZqI32 {
    /// The parameters of the pre-defined field.
    pub fn field() -> (f: IntField)
        ensures
            f == (IntField { q: 3329, b: 1, n: 256 }),
            f.valid_spec(),
    {
        let f = IntField { q: 3329, b: 1, n: 256 };
        proof {
            assert(8 * 256 * 1 * 1 + 4 * 1 < 3329) by (nonlinear_arith);
            assert(256 * 3329 * 3329 <= i64::MAX) by (nonlinear_arith);
        }
        f
    }

    /// The centred modulo operation of the pre-defined field.
    pub fn modulo(x: i64) -> (r: i64)
        ensures
            r as int == crate::intfield::centered(3329, x as int),
            crate::intfield::in_centered_range(3329, r as int),
    {
        let f = ZqI32::field();
        f.modulo(x)
    }
}

/// Generates a key pair with the pre-defined parameters (q = 3329,
/// b = 1, n = 256): messages of at most 256 bits.
pub fn standard(rng: &mut rand::rngs::ThreadRng) -> (keys: (EncryptKey, DecryptKey))
    ensures
        keys.0.params == (IntField { q: 3329, b: 1, n: 256 }),
        keys.1.params == (IntField { q: 3329, b: 1, n: 256 }),
        keys.0.wf(),
        keys.1.wf(),
        exists|e: Seq<int>|
            {
                &&& e.len() == keys.0.params.n
                &&& all_bounded(e, keys.0.params.b as int)
                &&& keys.0.t@ == #[trigger] noisy_product(keys.0.params, keys.0.a@, keys.1.s@, e)
            },
{
    let f = ZqI32::field();
    key_gen(&f, rng)
}

} // verus!
