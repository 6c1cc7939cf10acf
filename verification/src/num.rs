//! Shared integer arithmetic facts used throughout the geometric kernel.
//!
//! The executable code multiplies world coordinates inside `i128`
//! intermediates; these lemmas bound such products so every operation is
//! proved free of overflow.

use vstd::prelude::*;

verus! {

/// `|a * b| <= ma * mb` whenever `|a| <= ma` and `|b| <= mb`.
pub proof fn lemma_mul_abs_bound(a: int, b: int, ma: int, mb: int)
    requires
        -ma <= a <= ma,
        -mb <= b <= mb,
    ensures
        -(ma * mb) <= a * b <= ma * mb,
{
    assert(-(ma * mb) <= a * b <= ma * mb) by (nonlinear_arith)
        requires
            -ma <= a <= ma,
            -mb <= b <= mb,
    ;
}

/// Multiplying both sides of `a <= b` by a nonnegative factor keeps the order.
pub proof fn lemma_mul_le_mono(a: int, b: int, c: int)
    requires
        a <= b,
        0 <= c,
    ensures
        a * c <= b * c,
{
    assert(a * c <= b * c) by (nonlinear_arith)
        requires
            a <= b,
            0 <= c,
    ;
}

/// Absolute value.
pub open spec fn sabs(n: int) -> int {
    if n >= 0 {
        n
    } else {
        -n
    }
}

/// Division rounding toward zero, for a positive divisor. On nonnegative
/// dividends it agrees with Euclidean division.
pub open spec fn sdiv_trunc(n: int, d: int) -> int {
    if n >= 0 {
        n / d
    } else {
        -((-n) / d)
    }
}

/// Executable truncating division by a positive divisor, computed on
/// unsigned magnitudes.
pub fn div_trunc(n: i128, d: i128) -> (r: i128)
    requires
        0 < d,
        i128::MIN < n,
    ensures
        r == sdiv_trunc(n as int, d as int),
        sabs(r as int) <= sabs(n as int),
{
    if n >= 0 {
        let q: u128 = (n as u128) / (d as u128);
        proof {
            vstd::arithmetic::div_mod::lemma_div_nonincreasing(n as int, d as int);
            vstd::arithmetic::div_mod::lemma_div_pos_is_pos(n as int, d as int);
        }
        q as i128
    } else {
        let m: u128 = (-n) as u128;
        let q: u128 = m / (d as u128);
        proof {
            vstd::arithmetic::div_mod::lemma_div_nonincreasing(m as int, d as int);
            vstd::arithmetic::div_mod::lemma_div_pos_is_pos(m as int, d as int);
        }
        -(q as i128)
    }
}

/// A nonnegative dividend strictly below `t * d` divides to strictly below
/// `t`.
pub proof fn lemma_div_lt(n: int, d: int, t: int)
    requires
        0 <= n,
        0 < d,
        n < t * d,
    ensures
        n / d < t,
{
    vstd::arithmetic::div_mod::lemma_fundamental_div_mod(n, d);
    vstd::arithmetic::div_mod::lemma_remainder_lower(n, d);
    vstd::arithmetic::div_mod::lemma_remainder_upper(n, d);
    vstd::arithmetic::div_mod::lemma_div_pos_is_pos(n, d);
    assert(n / d < t) by (nonlinear_arith)
        requires
            n == d * (n / d) + n % d,
            0 <= n % d < d,
            n < t * d,
            0 < d,
            0 <= n / d,
    ;
}

/// `r` is the integer square root of `n`, rounded down.
pub open spec fn is_isqrt(n: int, r: int) -> bool {
    &&& 0 <= r
    &&& r * r <= n
    &&& n < (r + 1) * (r + 1)
}

/// The integer square root as a spec-level function; `is_isqrt` pins it
/// uniquely.
pub open spec fn sisqrt(n: int) -> int {
    choose|r: int| is_isqrt(n, r)
}

/// The rounded-down square root is unique.
pub proof fn lemma_isqrt_unique(n: int, a: int, b: int)
    requires
        is_isqrt(n, a),
        is_isqrt(n, b),
    ensures
        a == b,
{
    assert(a == b) by (nonlinear_arith)
        requires
            0 <= a,
            0 <= b,
            a * a <= n < (a + 1) * (a + 1),
            b * b <= n < (b + 1) * (b + 1),
    ;
}

/// An executable root equals the spec-level root.
pub proof fn lemma_isqrt_is_sisqrt(n: int, r: int)
    requires
        is_isqrt(n, r),
    ensures
        r == sisqrt(n),
{
    let c = choose|c: int| is_isqrt(n, c);
    lemma_isqrt_unique(n, r, c);
}

/// Integer square root by bisection.
pub fn isqrt(n: u128) -> (r: u128)
    ensures
        is_isqrt(n as int, r as int),
{
    if n == 0 {
        return 0;
    }
    let mut lo: u128 = 0;
    let mut hi: u128 = 0x1_0000_0000_0000_0000;
    proof {
        assert((hi as int) * (hi as int) > n as int) by (nonlinear_arith)
            requires
                hi == 0x1_0000_0000_0000_0000u128,
                n <= u128::MAX,
        ;
    }
    while lo + 1 < hi
        invariant
            0 <= lo < hi,
            hi <= 0x1_0000_0000_0000_0000u128,
            (lo as int) * (lo as int) <= n as int,
            (hi as int) * (hi as int) > n as int,
        decreases hi - lo,
    {
        let mid: u128 = lo + (hi - lo) / 2;
        proof {
            assert((mid as int) * (mid as int) < 0x1_0000_0000_0000_0000_0000_0000_0000_0000int)
                by (nonlinear_arith)
                requires
                    mid < 0x1_0000_0000_0000_0000u128,
            ;
        }
        if mid * mid <= n {
            lo = mid;
        } else {
            hi = mid;
        }
    }
    lo
}

/// Truncating division stays between any integer bounds that hold of the
/// exact quotient.
pub proof fn lemma_div_trunc_bounds(n: int, d: int, lo: int, hi: int)
    requires
        0 < d,
        lo * d <= n,
        n <= hi * d,
    ensures
        lo <= sdiv_trunc(n, d) <= hi,
{
    if n >= 0 {
        vstd::arithmetic::div_mod::lemma_div_multiples_vanish(hi, d);
        vstd::arithmetic::div_mod::lemma_div_multiples_vanish(lo, d);
        vstd::arithmetic::div_mod::lemma_div_is_ordered(n, hi * d, d);
        vstd::arithmetic::div_mod::lemma_div_is_ordered(lo * d, n, d);
        assert(hi * d == d * hi) by (nonlinear_arith);
        assert(lo * d == d * lo) by (nonlinear_arith);
    } else {
        let m = -n;
        // upper bound: sdiv_trunc(n, d) == -(m / d) <= hi
        if hi >= 0 {
            vstd::arithmetic::div_mod::lemma_div_pos_is_pos(m, d);
        } else {
            // m >= (-hi) * d, so m / d >= -hi
            assert((-hi) * d <= m) by (nonlinear_arith)
                requires
                    n <= hi * d,
                    m == -n,
            ;
            vstd::arithmetic::div_mod::lemma_div_multiples_vanish(-hi, d);
            vstd::arithmetic::div_mod::lemma_div_is_ordered((-hi) * d, m, d);
            assert((-hi) * d == d * (-hi)) by (nonlinear_arith);
        }
        // lower bound: lo <= -(m / d), i.e. m / d <= -lo
        assert(m <= (-lo) * d) by (nonlinear_arith)
            requires
                lo * d <= n,
                m == -n,
        ;
        vstd::arithmetic::div_mod::lemma_div_multiples_vanish(-lo, d);
        vstd::arithmetic::div_mod::lemma_div_is_ordered(m, (-lo) * d, d);
        assert((-lo) * d == d * (-lo)) by (nonlinear_arith);
    }
}

} // verus!
