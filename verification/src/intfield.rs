//! Field parameters: modulus, noise bound, ring degree, and the centred
//! modulo operation that keeps every residue in (-Q/2, Q/2].

use vstd::prelude::*;

verus! {

/// The integers in `(-q/2, q/2]`; for odd `q` these are `[-(q-1)/2, (q-1)/2]`.
pub open spec fn in_centered_range(q: int, x: int) -> bool {
    -(q / 2) <= x <= q / 2
}

/// The unique representative of `x + qZ` in the centred canonical range.
pub open spec fn centered(q: int, x: int) -> int {
    if x % q > q / 2 {
        x % q - q
    } else {
        x % q
    }
}

/// Parameters of a finite field of integers with odd prime modulus `q`,
/// together with the noise bound `b` and the ring degree `n` of the
/// quotient ring Z_q[X]/(X^n + 1).
///
/// `q` and `b` must satisfy `2*n*b^2 + b < q/4` for decryption to be
/// correct; `valid` checks this, and the bounds that keep every
/// intermediate product of the ring arithmetic within `i64`.
#[derive(Debug, Clone, Copy, PartialEq, Eq, Structural)]
pub struct IntField {
    /// The odd prime modulus.
    pub q: i64,
    /// Bound on the magnitude of "small" (noise and secret) coefficients.
    pub b: i64,
    /// The ring degree; also the maximum message length in bits.
    pub n: usize,
}

impl IntField {
    /// What the coefficient-wise operations need of the modulus alone:
    /// odd, at least 3, and small enough that `q * q` fits in `i64`.
    pub open spec fn modulus_ok(self) -> bool {
        &&& 3 <= self.q
        &&& self.q % 2 == 1
        &&& self.q < 0x8000_0000
    }

    /// The parameter conditions of the scheme: `q` odd and at least 3,
    /// `b` positive, `n` positive, and `2*n*b^2 + b < q/4` (written with
    /// both sides scaled by 4). The last two conjuncts bound `q` and the
    /// convolution sums so that all arithmetic fits in `i64`.
    pub open spec fn valid_spec(self) -> bool {
        &&& 3 <= self.q
        &&& self.q % 2 == 1
        &&& 1 <= self.b
        &&& 1 <= self.n
        &&& 8 * (self.n as int) * (self.b as int) * (self.b as int) + 4 * (self.b as int)
            < self.q as int
        &&& self.q < 0x8000_0000
        &&& (self.n as int) * (self.q as int) * (self.q as int) <= i64::MAX as int
    }

    /// Checks `valid_spec` at run time.
    pub fn valid(&self) -> (r: bool)
        ensures
            r == self.valid_spec(),
    {
        if self.q < 3 || self.q % 2 != 1 || self.b < 1 || self.n < 1 {
            return false;
        }
        if self.q >= 0x8000_0000 {
            return false;
        }
        if self.b >= self.q {
            // valid_spec fails: 8*n*b*b + 4*b >= 4*b >= 4*q > q.
            proof {
                vstd::arithmetic::mul::lemma_mul_nonnegative(
                    8 * (self.n as int) * (self.b as int),
                    self.b as int,
                );
                vstd::arithmetic::mul::lemma_mul_nonnegative(8 * (self.n as int), self.b as int);
            }
            return false;
        }
        if self.n > 0x1000_0000 {
            // valid_spec fails: 8*n*b*b >= 8*n > q, since b >= 1.
            proof {
                let n = self.n as int;
                let b = self.b as int;
                assert(8 * n * b * b >= 8 * n) by (nonlinear_arith)
                    requires
                        n >= 1,
                        b >= 1,
                ;
            }
            return false;
        }
        let n128 = self.n as i128;
        let b128 = self.b as i128;
        let q128 = self.q as i128;
        let p1: i128 = 8 * n128;
        proof {
            assert(p1 * b128 <= 0x4_0000_0000_0000_0000i128) by (nonlinear_arith)
                requires
                    0 <= p1 <= 0x8_0000_0000i128,
                    0 <= b128 <= 0x8000_0000i128,
            ;
        }
        let p2: i128 = p1 * b128;
        proof {
            assert(p2 * b128 <= 0x2_0000_0000_0000_0000_0000_0000i128) by (nonlinear_arith)
                requires
                    0 <= p2 <= 0x4_0000_0000_0000_0000i128,
                    0 <= b128 <= 0x8000_0000i128,
            ;
        }
        let p3: i128 = p2 * b128;
        if p3 + 4 * b128 >= q128 {
            return false;
        }
        proof {
            assert(n128 * q128 <= 0x800_0000_0000_0000i128) by (nonlinear_arith)
                requires
                    0 <= n128 <= 0x1000_0000i128,
                    0 <= q128 <= 0x8000_0000i128,
            ;
        }
        let p4: i128 = n128 * q128;
        proof {
            assert(p4 * q128 <= 0x400_0000_0000_0000_0000_0000i128) by (nonlinear_arith)
                requires
                    0 <= p4 <= 0x800_0000_0000_0000i128,
                    0 <= q128 <= 0x8000_0000i128,
            ;
        }
        if p4 * q128 > i64::MAX as i128 {
            return false;
        }
        true
    }

    /// Maps `x` to the representative of `x + qZ` in `(-q/2, q/2]`.
    pub fn modulo(&self, x: i64) -> (r: i64)
        requires
            self.modulus_ok(),
        ensures
            r as int == centered(self.q as int, x as int),
            in_centered_range(self.q as int, r as int),
    {
        let q = self.q;
        let rem: i64 = match x.checked_rem_euclid(q) {
            Some(v) => v,
            None => 0,  // impossible: q != 0 and q != -1
        };
        if rem > q / 2 {
            rem - q
        } else {
            rem
        }
    }
}

/// `centered` lands in the centred range and does not change the residue.
pub proof fn lemma_centered_range(q: int, x: int)
    requires
        3 <= q,
        q % 2 == 1,
    ensures
        in_centered_range(q, centered(q, x)),
        centered(q, x) % q == x % q,
{
    vstd::arithmetic::div_mod::lemma_mod_bound(x, q);
    if x % q > q / 2 {
        vstd::arithmetic::div_mod::lemma_mod_sub_multiples_vanish(x % q, q);
        vstd::arithmetic::div_mod::lemma_mod_twice(x, q);
        assert((x % q - q) % q == x % q);
    } else {
        vstd::arithmetic::div_mod::lemma_mod_twice(x, q);
    }
}

/// A value already in the centred range is its own representative.
pub proof fn lemma_centered_identity(q: int, x: int)
    requires
        3 <= q,
        q % 2 == 1,
        in_centered_range(q, x),
    ensures
        centered(q, x) == x,
{
    if 0 <= x {
        vstd::arithmetic::div_mod::lemma_small_mod(x as nat, q as nat);
    } else {
        vstd::arithmetic::div_mod::lemma_mod_add_multiples_vanish(x, q);
        vstd::arithmetic::div_mod::lemma_small_mod((x + q) as nat, q as nat);
        assert(x % q == x + q);
    }
}

/// Congruent values have the same centred representative.
pub proof fn lemma_centered_congruent(q: int, x: int, y: int)
    requires
        3 <= q,
        q % 2 == 1,
        x % q == y % q,
    ensures
        centered(q, x) == centered(q, y),
{
}

} // verus!
