//! Exact integer helpers for the wood synthesizer: integer square root,
//! integer fifth root, and a rational fixed-point approximation of the sine.
//!
//! Sine values, phase fractions and brightness factors are fixed-point
//! numbers scaled by 2^20 (`SIN_ONE`).

use vstd::arithmetic::div_mod::{lemma_div_by_multiple, lemma_div_is_ordered};
use vstd::prelude::*;

verus! {

/// Fixed-point one: the scale of sine values and phase fractions.
pub const SIN_ONE: u64 = 0x100000;

/// The integer square root: the largest `r` with `r * r <= v`.
pub open spec fn sqrt_spec(v: nat) -> nat
    decreases v,
{
    if v == 0 {
        0
    } else {
        let r = sqrt_spec((v - 1) as nat);
        if (r + 1) * (r + 1) <= v {
            r + 1
        } else {
            r
        }
    }
}

/// `sqrt_spec(v)` is exactly the rounded-down square root of `v`.
pub proof fn lemma_sqrt_spec_bounds(v: nat)
    ensures
        sqrt_spec(v) * sqrt_spec(v) <= v,
        v < (sqrt_spec(v) + 1) * (sqrt_spec(v) + 1),
    decreases v,
{
    let s = sqrt_spec(v);
    if v == 0 {
        assert(s == 0);
        assert(s * s <= v && v < (s + 1) * (s + 1)) by (nonlinear_arith)
            requires
                s == 0,
                v == 0,
        ;
    } else {
        lemma_sqrt_spec_bounds((v - 1) as nat);
        let r = sqrt_spec((v - 1) as nat);
        if (r + 1) * (r + 1) <= v {
            assert(s == r + 1);
            assert(s * s <= v && v < (s + 1) * (s + 1)) by (nonlinear_arith)
                requires
                    s == r + 1,
                    (r + 1) * (r + 1) <= v,
                    v - 1 < (r + 1) * (r + 1),
            ;
        } else {
            assert(s == r);
            assert(s * s <= v && v < (s + 1) * (s + 1)) by (nonlinear_arith)
                requires
                    s == r,
                    r * r <= v - 1,
                    !((r + 1) * (r + 1) <= v),
            ;
        }
    }
}

/// Any `r` bracketed by the square-root bounds is `sqrt_spec(v)`.
pub proof fn lemma_sqrt_unique(v: nat, r: nat)
    requires
        r * r <= v,
        v < (r + 1) * (r + 1),
    ensures
        r == sqrt_spec(v),
{
    lemma_sqrt_spec_bounds(v);
    let s = sqrt_spec(v);
    if r < s {
        assert((r + 1) * (r + 1) <= s * s) by (nonlinear_arith)
            requires
                r + 1 <= s,
                0 <= r,
        ;
    }
    if s < r {
        assert((s + 1) * (s + 1) <= r * r) by (nonlinear_arith)
            requires
                s + 1 <= r,
                0 <= s,
        ;
    }
}

/// Computes the integer square root of `v` by bisection.
pub fn isqrt(v: u64) -> (r: u64)
    ensures
        r == sqrt_spec(v as nat),
        (r as int) * (r as int) <= v as int,
        (v as int) < ((r as int) + 1) * ((r as int) + 1),
        r <= 0x100000000,
{
    let mut lo: u64 = 0;
    let mut hi: u64 = 0x100000000;
    proof {
        assert((0x100000000 as int) * (0x100000000 as int) > u64::MAX as int);
    }
    while lo + 1 < hi
        invariant
            lo < hi <= 0x100000000,
            (lo as int) * (lo as int) <= v as int,
            (v as int) < (hi as int) * (hi as int),
        decreases hi - lo,
    {
        let mid = lo + (hi - lo) / 2;
        proof {
            assert((mid as int) * (mid as int) < u64::MAX as int) by (nonlinear_arith)
                requires
                    mid < 0x100000000,
            ;
        }
        if mid * mid <= v {
            lo = mid;
        } else {
            hi = mid;
        }
    }
    proof {
        lemma_sqrt_unique(v as nat, lo as nat);
    }
    lo
}

/// The fifth power.
pub open spec fn pow5(r: int) -> int {
    r * r * r * r * r
}

/// The fifth power is strictly increasing on the naturals.
pub proof fn lemma_pow5_lt(a: int, b: int)
    requires
        0 <= a < b,
    ensures
        pow5(a) < pow5(b),
{
    assert(a * a * a * a * a < b * b * b * b * b) by (nonlinear_arith)
        requires
            0 <= a < b,
    ;
}

/// The integer fifth root: the largest `r` with `pow5(r) <= v`.
pub open spec fn fifth_root_spec(v: nat) -> nat
    decreases v,
{
    if v == 0 {
        0
    } else {
        let r = fifth_root_spec((v - 1) as nat);
        if pow5(r as int + 1) <= v {
            r + 1
        } else {
            r
        }
    }
}

/// `fifth_root_spec(v)` is exactly the rounded-down fifth root of `v`.
pub proof fn lemma_fifth_root_spec_bounds(v: nat)
    ensures
        pow5(fifth_root_spec(v) as int) <= v,
        v < pow5(fifth_root_spec(v) as int + 1),
    decreases v,
{
    let s = fifth_root_spec(v);
    if v == 0 {
        assert(s == 0);
        assert(pow5(0) == 0 && pow5(1) == 1) by (nonlinear_arith);
        assert(pow5(s as int) <= v);
        assert(v < pow5(s as int + 1));
    } else {
        lemma_fifth_root_spec_bounds((v - 1) as nat);
        let r = fifth_root_spec((v - 1) as nat);
        if pow5(r as int + 1) <= v {
            lemma_pow5_lt(r as int + 1, r as int + 2);
            assert(s == r + 1);
            assert(pow5(s as int) <= v);
            assert(s as int + 1 == r as int + 2);
            assert(v <= pow5(r as int + 1));
            assert(v < pow5(s as int + 1));
        } else {
            assert(s == r);
            assert(pow5(s as int) <= v);
            assert(v < pow5(s as int + 1));
        }
    }
}

/// Any `r` bracketed by the fifth-root bounds is `fifth_root_spec(v)`.
pub proof fn lemma_fifth_root_unique(v: nat, r: nat)
    requires
        pow5(r as int) <= v,
        v < pow5(r as int + 1),
    ensures
        r == fifth_root_spec(v),
{
    lemma_fifth_root_spec_bounds(v);
    let s = fifth_root_spec(v);
    if r < s {
        if r as int + 1 < s as int {
            lemma_pow5_lt(r as int + 1, s as int);
        }
        assert(pow5(r as int + 1) <= pow5(s as int));
    }
    if s < r {
        if s as int + 1 < r as int {
            lemma_pow5_lt(s as int + 1, r as int);
        }
        assert(pow5(s as int + 1) <= pow5(r as int));
    }
}

/// Computes the fifth power of `x`, which must be small enough to fit.
fn pow5_exec(x: u64) -> (p: u128)
    requires
        x <= 0x200000,
    ensures
        p == pow5(x as int),
{
    let x1: u128 = x as u128;
    proof {
        assert(((x as int) * (x as int)) <= 0x40000000000 && 0 <= (x as int) * (x as int))
            by (nonlinear_arith)
            requires
                0 <= (x as int) <= 0x200000,
        ;
    }
    let x2: u128 = x1 * x1;
    proof {
        assert((x2 as int) * (x2 as int) <= 0x1000000000000000000000
            && 0 <= (x2 as int) * (x2 as int)) by (nonlinear_arith)
            requires
                0 <= (x2 as int) <= 0x40000000000,
        ;
    }
    let x4: u128 = x2 * x2;
    proof {
        assert((x4 as int) * (x1 as int) <= 0x200000000000000000000000000
            && 0 <= (x4 as int) * (x1 as int)) by (nonlinear_arith)
            requires
                0 <= (x4 as int) <= 0x1000000000000000000000,
                0 <= (x1 as int) <= 0x200000,
        ;
        assert((x4 as int) * (x1 as int) == pow5(x as int)) by (nonlinear_arith)
            requires
                x2 == (x as int) * (x as int),
                x4 == (x2 as int) * (x2 as int),
                x1 == x as int,
        ;
    }
    x4 * x1
}

/// Computes the integer fifth root of `v` by bisection.
///
/// `v` may be at most `2^100`, so the root is at most `2^20`.
pub fn fifth_root(v: u128) -> (r: u64)
    requires
        v <= 0x10000000000000000000000000,
    ensures
        r == fifth_root_spec(v as nat),
        pow5(r as int) <= v as int,
        (v as int) < pow5(r as int + 1),
        r <= 0x100000,
{
    let mut lo: u64 = 0;
    let mut hi: u64 = 0x100001;
    proof {
        assert(pow5(0x100000) == 0x10000000000000000000000000);
        lemma_pow5_lt(0x100000, 0x100001);
    }
    while lo + 1 < hi
        invariant
            lo < hi <= 0x100001,
            pow5(lo as int) <= v as int,
            (v as int) < pow5(hi as int),
        decreases hi - lo,
    {
        let mid = lo + (hi - lo) / 2;
        if pow5_exec(mid) <= v {
            lo = mid;
        } else {
            hi = mid;
        }
    }
    proof {
        lemma_fifth_root_unique(v as nat, lo as nat);
    }
    lo
}

/// Rational approximation of `sin(pi * mf / 2^20)`, scaled by 2^20, for a
/// phase fraction `mf` in `[0, 2^20]`: `16 z (1 - z) / (5 - 4 z (1 - z))`
/// with `z = mf / 2^20`, multiplied out to integers.
pub open spec fn sin_q(mf: int) -> int {
    (16 * (mf * (0x100000 - mf)) * 0x100000) / (5 * 0x10000000000 - 4 * (mf * (0x100000 - mf)))
}

/// The sine approximation stays within `[0, 2^20]` on `[0, 2^20]`.
pub proof fn lemma_sin_q_bounds(mf: int)
    requires
        0 <= mf <= 0x100000,
    ensures
        0 <= sin_q(mf) <= 0x100000,
{
    let q = mf * (0x100000 - mf);
    assert(0 <= q <= 0x4000000000) by (nonlinear_arith)
        requires
            0 <= mf <= 0x100000,
            q == mf * (0x100000 - mf),
    ;
    let num = 16 * q * 0x100000;
    let den = 5 * 0x10000000000 - 4 * q;
    assert(num <= den * 0x100000) by (nonlinear_arith)
        requires
            0 <= q <= 0x4000000000,
            num == 16 * q * 0x100000,
            den == 5 * 0x10000000000 - 4 * q,
    ;
    lemma_div_is_ordered(num, den * 0x100000, den);
    lemma_div_by_multiple(0x100000, den);
    vstd::arithmetic::div_mod::lemma_div_pos_is_pos(num, den);
}

/// Computes `sin_q(mf)` exactly.
pub fn sin_pi_frac(mf: u32) -> (s: u64)
    requires
        mf <= 0x100000,
    ensures
        s as int == sin_q(mf as int),
        s <= 0x100000,
{
    proof {
        assert(0 <= (mf as int) * (0x100000 - mf as int) <= 0x4000000000) by (nonlinear_arith)
            requires
                0 <= mf as int <= 0x100000,
        ;
    }
    let q: u64 = (mf as u64) * (0x100000 - mf as u64);
    let num: u64 = 16 * q * 0x100000;
    let den: u64 = 5 * 0x10000000000 - 4 * q;
    let s = num / den;
    proof {
        lemma_sin_q_bounds(mf as int);
    }
    s
}

} // verus!
