//! Integer helpers shared by the geometry kernel: division rounded to the
//! nearest integer and the integer square root, both with exact contracts.

use vstd::arithmetic::div_mod::{
    lemma_div_is_ordered_by_denominator, lemma_fundamental_div_mod, lemma_mod_bound,
};
use vstd::arithmetic::mul::lemma_mul_is_associative;
use vstd::math::abs;
use vstd::prelude::*;

verus! {

/// Largest magnitude accepted by `div_round_i128`; leaves room for the
/// `2 * n + d` intermediate inside an `i128`.
pub const MAX_DIV_OPERAND: i128 = 0x1000000000000000000000000000000;

/// Division rounded to the nearest integer, ties away from zero,
/// defined for positive divisors.
pub open spec fn div_round(n: int, d: int) -> int {
    if n >= 0 {
        (2 * n + d) / (2 * d)
    } else {
        -((2 * (-n) + d) / (2 * d))
    }
}

/// The rounded quotient differs from the exact ratio by at most half:
/// `|div_round(n, d) * d - n| <= d / 2`.
pub proof fn lemma_div_round_err(n: int, d: int)
    requires
        d >= 1,
    ensures
        2 * abs(div_round(n, d) * d - n) <= d,
{
    if n >= 0 {
        lemma_div_round_err_nonneg(n, d);
    } else {
        lemma_div_round_err_nonneg(-n, d);
        assert(div_round(n, d) == -div_round(-n, d));
        assert(div_round(n, d) * d - n == -(div_round(-n, d) * d - (-n))) by (nonlinear_arith)
            requires
                div_round(n, d) == -div_round(-n, d),
        ;
    }
}

proof fn lemma_div_round_err_nonneg(n: int, d: int)
    requires
        d >= 1,
        n >= 0,
    ensures
        2 * abs(div_round(n, d) * d - n) <= d,
{
    let q = (2 * n + d) / (2 * d);
    let r = (2 * n + d) % (2 * d);
    lemma_fundamental_div_mod(2 * n + d, 2 * d);
    lemma_mod_bound(2 * n + d, 2 * d);
    assert(2 * n + d == (2 * d) * q + r);
    lemma_mul_is_associative(2, d, q);
    assert((2 * d) * q == 2 * (d * q));
    assert(2 * (d * q) - 2 * n == d - r);
    assert(d * q == q * d) by (nonlinear_arith);
}

/// A product is bounded by the product of the factors' bounds.
pub proof fn lemma_mul_bounds(x: int, y: int, mx: int, my: int)
    requires
        abs(x) <= mx,
        abs(y) <= my,
    ensures
        abs(x * y) <= mx * my,
{
    assert(abs(x * y) <= mx * my) by (nonlinear_arith)
        requires
            abs(x) <= mx,
            abs(y) <= my,
    ;
}

/// Rounding a ratio whose value is bounded by `m` yields an integer bounded
/// by `m + 1`.
pub proof fn lemma_div_round_bound(n: int, d: int, m: int)
    requires
        d >= 1,
        m >= 0,
        abs(n) <= m * d,
    ensures
        abs(div_round(n, d)) <= m + 1,
{
    lemma_div_round_err(n, d);
    let r = div_round(n, d);
    assert(abs(r) <= m + 1) by (nonlinear_arith)
        requires
            d >= 1,
            m >= 0,
            abs(n) <= m * d,
            2 * abs(r * d - n) <= d,
    ;
}

/// Divides `n` by `d` and rounds to the nearest integer, ties away from zero.
pub fn div_round_i128(n: i128, d: i128) -> (r: i128)
    requires
        1 <= d <= MAX_DIV_OPERAND,
        -MAX_DIV_OPERAND <= n <= MAX_DIV_OPERAND,
    ensures
        r == div_round(n as int, d as int),
{
    let dd: u128 = d as u128;
    if n >= 0 {
        let m: u128 = n as u128;
        let q: u128 = (2 * m + dd) / (2 * dd);
        proof {
            lemma_div_is_ordered_by_denominator(2 * m + dd, 2, 2 * dd);
        }
        q as i128
    } else {
        let m: u128 = (-n) as u128;
        let q: u128 = (2 * m + dd) / (2 * dd);
        proof {
            lemma_div_is_ordered_by_denominator(2 * m + dd, 2, 2 * dd);
        }
        -(q as i128)
    }
}

/// Upper bound (exclusive) on the argument of `isqrt_u128`: two to the 126th.
pub const MAX_SQUARE: u128 = 0x40000000000000000000000000000000;

/// The integer square root: the largest `r` with `r * r <= n`.
pub fn isqrt_u128(n: u128) -> (r: u128)
    requires
        n < MAX_SQUARE,
    ensures
        r * r <= n,
        n < (r + 1) * (r + 1),
{
    if n == 0 {
        return 0;
    }
    let mut lo: u128 = 0;
    let mut hi: u128 = 0x8000000000000000;
    while hi - lo > 1
        invariant
            lo < hi <= 0x8000000000000000,
            lo * lo <= n,
            n < hi * hi,
        decreases hi - lo,
    {
        let mid: u128 = lo + (hi - lo) / 2;
        assert(lo < mid < hi);
        assert(mid * mid < MAX_SQUARE) by (nonlinear_arith)
            requires
                mid < 0x8000000000000000u128,
        ;
        if mid * mid <= n {
            lo = mid;
        } else {
            hi = mid;
        }
    }
    assert(hi == lo + 1);
    lo
}

} // verus!
