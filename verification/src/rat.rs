//! Exact rational values with strictly positive denominators.
//!
//! A ray parameter `t` is the quotient of two integer determinants, so hit
//! distances are rationals. Comparisons cross-multiply; under the `RAT_LIMIT`
//! magnitude bound the products fit in `i128`, so every comparison is exact.

use vstd::prelude::*;

use crate::num::lemma_mul_abs_bound;

verus! {

/// Magnitude bound (2^63) on numerator and denominator: cross-multiplied
/// pairs then stay within `i128`.
pub const RAT_LIMIT: i128 = 0x8000_0000_0000_0000;

#[derive(Clone, Copy, PartialEq, Eq, Structural, Debug)]
pub struct Rat {
    pub num: i128,
    pub den: i128,
}

/// `n1/d1 <= n2/d2` for positive denominators.
pub open spec fn rle(n1: int, d1: int, n2: int, d2: int) -> bool {
    n1 * d2 <= n2 * d1
}

/// `n1/d1 < n2/d2` for positive denominators.
pub open spec fn rlt(n1: int, d1: int, n2: int, d2: int) -> bool {
    n1 * d2 < n2 * d1
}

/// `n1/d1 == n2/d2` for positive denominators.
pub open spec fn req(n1: int, d1: int, n2: int, d2: int) -> bool {
    n1 * d2 == n2 * d1
}

impl Rat {
    /// Well-formed: positive denominator, both parts within `RAT_LIMIT`.
    pub open spec fn wf(self) -> bool {
        &&& 0 < self.den <= RAT_LIMIT as int
        &&& -(RAT_LIMIT as int) <= self.num <= RAT_LIMIT as int
    }

    pub fn new(num: i128, den: i128) -> (r: Rat)
        requires
            0 < den <= RAT_LIMIT as int,
            -(RAT_LIMIT as int) <= num <= RAT_LIMIT as int,
        ensures
            r.num == num,
            r.den == den,
            r.wf(),
    {
        Rat { num, den }
    }

    /// The integer `v` as a rational.
    pub fn from_int(v: i64) -> (r: Rat)
        ensures
            r.num == v,
            r.den == 1,
            r.wf(),
    {
        Rat { num: v as i128, den: 1 }
    }

    pub fn le(self, o: Rat) -> (r: bool)
        requires
            self.wf(),
            o.wf(),
        ensures
            r == rle(self.num as int, self.den as int, o.num as int, o.den as int),
    {
        proof {
            lemma_mul_abs_bound(self.num as int, o.den as int, RAT_LIMIT as int, RAT_LIMIT as int);
            lemma_mul_abs_bound(o.num as int, self.den as int, RAT_LIMIT as int, RAT_LIMIT as int);
        }
        self.num * o.den <= o.num * self.den
    }

    pub fn lt(self, o: Rat) -> (r: bool)
        requires
            self.wf(),
            o.wf(),
        ensures
            r == rlt(self.num as int, self.den as int, o.num as int, o.den as int),
    {
        proof {
            lemma_mul_abs_bound(self.num as int, o.den as int, RAT_LIMIT as int, RAT_LIMIT as int);
            lemma_mul_abs_bound(o.num as int, self.den as int, RAT_LIMIT as int, RAT_LIMIT as int);
        }
        self.num * o.den < o.num * self.den
    }

    /// Exact equality of the represented values.
    pub fn eq_val(self, o: Rat) -> (r: bool)
        requires
            self.wf(),
            o.wf(),
        ensures
            r == req(self.num as int, self.den as int, o.num as int, o.den as int),
    {
        proof {
            lemma_mul_abs_bound(self.num as int, o.den as int, RAT_LIMIT as int, RAT_LIMIT as int);
            lemma_mul_abs_bound(o.num as int, self.den as int, RAT_LIMIT as int, RAT_LIMIT as int);
        }
        self.num * o.den == o.num * self.den
    }
}

/// Transitivity of `rle` over positive denominators.
pub proof fn lemma_rle_trans(n1: int, d1: int, n2: int, d2: int, n3: int, d3: int)
    requires
        0 < d1,
        0 < d2,
        0 < d3,
        rle(n1, d1, n2, d2),
        rle(n2, d2, n3, d3),
    ensures
        rle(n1, d1, n3, d3),
{
    assert(n1 * d3 <= n3 * d1) by (nonlinear_arith)
        requires
            0 < d1,
            0 < d2,
            0 < d3,
            n1 * d2 <= n2 * d1,
            n2 * d3 <= n3 * d2,
    ;
}


} // verus!
