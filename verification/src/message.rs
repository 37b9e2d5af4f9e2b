//! Messages: validated bit vectors of length at most the ring degree.

use vstd::prelude::*;

verus! {

use crate::error::RlweError;
use crate::polynomial::as_ints;
use crate::polynomial::is_bits;
use crate::rng::sample_range;

/// A message to be encrypted: a vector of bits (0 or 1), at most `n` of
/// them for ring degree `n`. Construction through `new` validates both.
#[derive(Debug, Clone, PartialEq, Eq)]
pub struct Message {
    pub data: Vec<i64>,
}

impl View for Message {
    type V = Seq<int>;

    open spec fn view(&self) -> Seq<int> {
        as_ints(self.data@)
    }
}

impl Message {
    /// A message that may be encrypted under ring degree `n`.
    pub open spec fn valid_for(self, n: int) -> bool {
        &&& is_bits(self@)
        &&& self@.len() <= n
    }

    /// Creates a message from a vector of integers, rejecting it when an
    /// entry is not 0 or 1, or when it is longer than `n`.
    pub fn new(data: Vec<i64>, n: usize) -> (r: Result<Message, RlweError>)
        ensures
            match r {
                Ok(m) => {
                    &&& m.data@ == data@
                    &&& m.valid_for(n as int)
                },
                Err(e) => {
                    &&& e == RlweError::InvalidMessage
                    &&& !(is_bits(as_ints(data@)) && data@.len() <= n)
                },
            },
    {
        if data.len() > n {
            return Err(RlweError::InvalidMessage);
        }
        let len = data.len();
        let mut i: usize = 0;
        while i < len
            invariant
                0 <= i <= len,
                len == data@.len(),
                forall|j: int|
                    0 <= j < i ==> #[trigger] as_ints(data@)[j] == 0 || as_ints(data@)[j] == 1,
            decreases len - i,
        {
            let c = data[i];
            if c != 0 && c != 1 {
                assert(!(as_ints(data@)[i as int] == 0 || as_ints(data@)[i as int] == 1));
                return Err(RlweError::InvalidMessage);
            }
            i = i + 1;
        }
        let m = Message { data };
        assert(is_bits(m@));
        Ok(m)
    }

    /// The length of the message in bits.
    pub fn len(&self) -> (r: usize)
        ensures
            r == self@.len(),
    {
        self.data.len()
    }

    /// Whether the message holds no bits.
    pub fn is_empty(&self) -> (r: bool)
        ensures
            r == (self@.len() == 0),
    {
        self.data.len() == 0
    }

    /// Consumes the message and returns its underlying vector.
    pub fn data(self) -> (r: Vec<i64>)
        ensures
            as_ints(r@) == self@,
    {
        self.data
    }

    /// A fresh message of `len` fair coin flips.
    pub fn random(rng: &mut rand::rngs::ThreadRng, len: usize) -> (r: Message)
        ensures
            r@.len() == len,
            is_bits(r@),
    {
        let mut out: Vec<i64> = Vec::new();
        let mut i: usize = 0;
        while i < len
            invariant
                0 <= i <= len,
                out@.len() == i,
                forall|j: int| 0 <= j < i ==> #[trigger] out@[j] == 0 || out@[j] == 1,
            decreases len - i,
        {
            let c = sample_range(rng, 0, 1);
            out.push(c);
            i = i + 1;
        }
        let m = Message { data: out };
        assert forall|j: int| 0 <= j < m@.len() implies #[trigger] m@[j] == 0 || m@[j] == 1 by {
            assert(m@[j] == out@[j] as int);
        }
        m
    }
}

} // verus!
