//! The ciphertext: a pair (u, v) of ring elements, and its serialized
//! form, the coefficients of u followed by those of v.

use vstd::prelude::*;

verus! {

use crate::error::RlweError;
use crate::intfield::IntField;
use crate::polynomial::RingElement;
use crate::polynomial::as_ints;
use crate::polynomial::concat_coeffs;
use crate::polynomial::split_coeffs;

/// A ciphertext produced by encryption: two elements of R_q.
#[derive(Debug, Clone, PartialEq, Eq)]
pub struct CipherText {
    pub u: RingElement,
    pub v: RingElement,
}

impl CipherText {
    /// Both halves well-formed for the parameters `f`.
    pub open spec fn wf(self, f: IntField) -> bool {
        &&& self.u.wf(f)
        &&& self.v.wf(f)
    }

    /// Serializes as the coefficients of `u` followed by those of `v`.
    pub fn serialize(&self) -> (r: Vec<i64>)
        ensures
            as_ints(r@) == self.u@ + self.v@,
            r@.len() == self.u@.len() + self.v@.len(),
    {
        concat_coeffs(&self.u, &self.v)
    }

    /// Rebuilds a ciphertext from `2n` coefficients; any other length is
    /// rejected with the expected and observed counts.
    pub fn deserialize(f: &IntField, data: Vec<i64>) -> (r: Result<CipherText, RlweError>)
        requires
            2 * (f.n as int) <= usize::MAX as int,
        ensures
            match r {
                Ok(c) => {
                    &&& data@.len() == 2 * (f.n as int)
                    &&& c.u@ == as_ints(data@).subrange(0, f.n as int)
                    &&& c.v@ == as_ints(data@).subrange(f.n as int, 2 * (f.n as int))
                    &&& c.u@.len() == f.n
                    &&& c.v@.len() == f.n
                },
                Err(e) => {
                    &&& data@.len() != 2 * (f.n as int)
                    &&& e == (RlweError::DeserializationLengthMismatch {
                        expected: (2 * f.n) as usize,
                        actual: data@.len() as usize,
                    })
                },
            },
    {
        let n = f.n;
        if data.len() != 2 * n {
            return Err(
                RlweError::DeserializationLengthMismatch { expected: 2 * n, actual: data.len() },
            );
        }
        let (u, v) = split_coeffs(&data, n);
        Ok(CipherText { u, v })
    }
}

/// Serialization round trip for the ciphertext: the serialized form of a
/// ciphertext whose halves hold `n` coefficients each has length `2n`,
/// and its two halves are exactly `u` and `v` — so by the contract of
/// `deserialize`, deserializing it returns a ciphertext equal to the
/// original.
pub proof fn lemma_ciphertext_round_trip(c: CipherText, f: IntField)
    requires
        c.u@.len() == f.n,
        c.v@.len() == f.n,
    ensures
        (c.u@ + c.v@).len() == 2 * (f.n as int),
        (c.u@ + c.v@).subrange(0, f.n as int) == c.u@,
        (c.u@ + c.v@).subrange(f.n as int, 2 * (f.n as int)) == c.v@,
{
    crate::polynomial::lemma_concat_split_round_trip(c.u@, c.v@, f.n as int);
}

} // verus!
