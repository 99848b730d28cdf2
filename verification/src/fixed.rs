//! Q24 fixed-point arithmetic: the real number `x` is represented by the
//! integer `x * 2^24`, so that every computation of the engine is an exact
//! integer formula. Products and quotients round toward zero, as the
//! corresponding spec functions state.

use vstd::prelude::*;

verus! {

/// One in Q24 format: `1 << 24`.
pub const FP_ONE: i64 = 0x100_0000;

/// Largest magnitude any signal, parameter or filter state of the engine may
/// take: `2^44` in Q24, i.e. about one million in real value.
pub const SIG_LIMIT: i64 = 0x1000_0000_0000;

/// Quotient of `n / d` rounded toward zero (`d > 0`).
pub open spec fn tdiv(n: int, d: int) -> int
    recommends
        d > 0,
{
    if n >= 0 {
        n / d
    } else {
        -((-n) / d)
    }
}

/// Q24 product, rounded toward zero.
pub open spec fn fp_mul_spec(a: int, b: int) -> int {
    tdiv(a * b, FP_ONE as int)
}

/// Q24 quotient, rounded toward zero (`b > 0`).
pub open spec fn fp_div_spec(a: int, b: int) -> int
    recommends
        b > 0,
{
    tdiv(a * FP_ONE, b)
}

/// `v` forced into `[lo, hi]`.
pub open spec fn clamp_spec(v: int, lo: int, hi: int) -> int
    recommends
        lo <= hi,
{
    if v < lo {
        lo
    } else if v > hi {
        hi
    } else {
        v
    }
}

/// Quotient toward zero of two machine integers, via unsigned division on
/// magnitudes.
pub fn tdiv_i128(n: i128, d: i128) -> (r: i128)
    requires
        d > 0,
        n > i128::MIN,
    ensures
        r == tdiv(n as int, d as int),
{
    if n >= 0 {
        let q: u128 = (n as u128) / (d as u128);
        q as i128
    } else {
        let m: i128 = -n;
        let q: u128 = (m as u128) / (d as u128);
        proof {
            vstd::arithmetic::div_mod::lemma_div_is_ordered_by_denominator(m as int, 1, d as int);
        }
        -(q as i128)
    }
}

/// Q24 product of two signals, rounded toward zero; the result must stay
/// within the signal range, which the precondition demands.
pub fn fp_mul(a: i64, b: i64) -> (r: i64)
    requires
        -SIG_LIMIT <= fp_mul_spec(a as int, b as int) <= SIG_LIMIT,
    ensures
        r == fp_mul_spec(a as int, b as int),
{
    let p: i128 = (a as i128) * (b as i128);
    proof {
        assert((p as int) > (i128::MIN as int)) by (nonlinear_arith)
            requires
                (p as int) == (a as int) * (b as int),
                -0x8000_0000_0000_0000 <= (a as int) <= 0x7fff_ffff_ffff_ffff,
                -0x8000_0000_0000_0000 <= (b as int) <= 0x7fff_ffff_ffff_ffff,
        ;
    }
    let q: i128 = tdiv_i128(p, FP_ONE as i128);
    q as i64
}

/// Q24 quotient of two signals, rounded toward zero (`b > 0`); the result
/// must stay within the signal range, which the precondition demands.
pub fn fp_div(a: i64, b: i64) -> (r: i64)
    requires
        0 < b,
        -SIG_LIMIT <= fp_div_spec(a as int, b as int) <= SIG_LIMIT,
    ensures
        r == fp_div_spec(a as int, b as int),
{
    let p: i128 = (a as i128) * (FP_ONE as i128);
    proof {
        assert((p as int) > (i128::MIN as int)) by (nonlinear_arith)
            requires
                (p as int) == (a as int) * (FP_ONE as int),
                -0x8000_0000_0000_0000 <= (a as int) <= 0x7fff_ffff_ffff_ffff,
                (FP_ONE as int) == 0x100_0000,
        ;
    }
    let q: i128 = tdiv_i128(p, b as i128);
    q as i64
}

/// `v` forced into `[lo, hi]`.
pub fn clamp_i128(v: i128, lo: i64, hi: i64) -> (r: i64)
    requires
        lo <= hi,
    ensures
        r == clamp_spec(v as int, lo as int, hi as int),
{
    if v < lo as i128 {
        lo
    } else if v > hi as i128 {
        hi
    } else {
        v as i64
    }
}

/// A floor square root is unique.
pub proof fn lemma_sqrt_unique(n: int, r1: int, r2: int)
    requires
        0 <= r1,
        0 <= r2,
        r1 * r1 <= n < (r1 + 1) * (r1 + 1),
        r2 * r2 <= n < (r2 + 1) * (r2 + 1),
    ensures
        r1 == r2,
{
    assert(r1 == r2) by (nonlinear_arith)
        requires
            0 <= r1,
            0 <= r2,
            r1 * r1 <= n < (r1 + 1) * (r1 + 1),
            r2 * r2 <= n < (r2 + 1) * (r2 + 1),
    ;
}

/// The floor square root of `n`: the unique `r >= 0` with
/// `r^2 <= n < (r+1)^2`.
pub open spec fn sqrt_of(n: int) -> int
    recommends
        n >= 0,
{
    choose|r: int| 0 <= r && #[trigger] (r * r) <= n < (r + 1) * (r + 1)
}

/// Floor square root by binary search.
pub fn isqrt(n: u128) -> (r: u128)
    ensures
        r * r <= n < (r + 1) * (r + 1),
        r == sqrt_of(n as int),
{
    let mut lo: u128 = 0;
    let mut hi: u128 = 0x1_0000_0000_0000_0000;
    proof {
        assert((hi as int) * (hi as int) > n as int) by (nonlinear_arith)
            requires
                (hi as int) == 0x1_0000_0000_0000_0000,
                (n as int) <= 0xffff_ffff_ffff_ffff_ffff_ffff_ffff_ffff,
        ;
    }
    while lo + 1 < hi
        invariant
            lo < hi <= 0x1_0000_0000_0000_0000,
            (lo as int) * (lo as int) <= n as int,
            (hi as int) * (hi as int) > n as int,
        decreases hi - lo,
    {
        let mid: u128 = lo + (hi - lo) / 2;
        assert(lo < mid < hi);
        proof {
            assert((mid as int) * (mid as int) <= 0xffff_ffff_ffff_ffff_ffff_ffff_ffff_ffff)
                by (nonlinear_arith)
                requires
                    0 <= (mid as int) && (mid as int) < 0x1_0000_0000_0000_0000,
            ;
        }
        if mid * mid <= n {
            lo = mid;
        } else {
            hi = mid;
        }
    }
    proof {
        let ghost li = lo as int;
        let ghost ni = n as int;
        assert(hi == lo + 1);
        assert(0 <= li && li * li <= ni < (li + 1) * (li + 1));
        assert(exists|w: int| 0 <= w && #[trigger] (w * w) <= ni < (w + 1) * (w + 1));
        let ghost w = choose|w: int| 0 <= w && #[trigger] (w * w) <= ni < (w + 1) * (w + 1);
        lemma_sqrt_unique(ni, li, w);
    }
    lo
}

} // verus!
