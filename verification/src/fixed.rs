//! Fixed-point scalars.
//!
//! Every coordinate, texture coordinate and depth in this crate is a signed
//! 64-bit integer holding a real number scaled by `SCALE` (2^16): the value
//! `65536` stands for one unit. All arithmetic is exact integer arithmetic;
//! division truncates toward zero, as stated by `tdiv`.

use vstd::prelude::*;

verus! {

use vstd::arithmetic::div_mod::lemma_div_is_ordered;
use vstd::arithmetic::div_mod::lemma_div_is_ordered_by_denominator;
use vstd::arithmetic::div_mod::lemma_div_multiples_vanish;
use vstd::arithmetic::div_mod::lemma_div_nonincreasing;
use vstd::arithmetic::div_mod::lemma_fundamental_div_mod_converse_mod;
use vstd::arithmetic::div_mod::lemma_multiply_divide_le;

/// Number of integer steps per unit: scalars are real numbers times `SCALE`.
pub const SCALE: i64 = 65536;

/// Magnitude of an integer.
pub open spec fn iabs(a: int) -> int {
    if a >= 0 {
        a
    } else {
        -a
    }
}

/// Division truncated toward zero, for a positive divisor.
/// (The `/` of ghost mathematics rounds toward negative infinity.)
pub open spec fn tdiv(a: int, b: int) -> int
    recommends
        b > 0,
{
    if a >= 0 {
        a / b
    } else {
        -((-a) / b)
    }
}

/// The product of two scalars, as a scalar: `a * b / SCALE`, truncated.
#[verifier::opaque]
pub open spec fn fx_mul(a: int, b: int) -> int {
    tdiv(a * b, SCALE as int)
}

/// The quotient of two scalars, as a scalar: `a * SCALE / b`, truncated.
pub open spec fn fx_div(a: int, b: int) -> int
    recommends
        b > 0,
{
    tdiv(a * SCALE, b)
}

/// An integer clamped into the `i64` range.
pub open spec fn sat64(a: int) -> int {
    if a > i64::MAX {
        i64::MAX as int
    } else if a < i64::MIN {
        i64::MIN as int
    } else {
        a
    }
}

pub proof fn lemma_tdiv_bound(a: int, b: int, m: int)
    requires
        b > 0,
        m >= 0,
        iabs(a) <= m * b,
    ensures
        iabs(tdiv(a, b)) <= m,
{
    if a >= 0 {
        lemma_multiply_divide_le(a, b, m);
    } else {
        lemma_multiply_divide_le(-a, b, m);
    }
}

pub proof fn lemma_tdiv_nonincreasing(a: int, b: int)
    requires
        b > 0,
    ensures
        iabs(tdiv(a, b)) <= iabs(a),
{
    if a >= 0 {
        lemma_div_nonincreasing(a, b);
        if a > 0 {
            vstd::arithmetic::div_mod::lemma_div_pos_is_pos(a, b);
        }
        assert(a == 0 ==> a / b == 0) by {
            vstd::arithmetic::div_mod::lemma_div_of0(b);
        }
    } else {
        lemma_div_nonincreasing(-a, b);
        vstd::arithmetic::div_mod::lemma_div_pos_is_pos(-a, b);
    }
}

pub proof fn lemma_tdiv_cancel(a: int, b: int)
    requires
        b > 0,
    ensures
        tdiv(a * b, b) == a,
{
    if a >= 0 {
        lemma_div_multiples_vanish(a, b);
        assert(b * a == a * b) by (nonlinear_arith);
    } else {
        lemma_div_multiples_vanish(-a, b);
        assert(b * (-a) == -(a * b)) by (nonlinear_arith);
    }
}

pub proof fn lemma_fx_mul_bound(a: int, b: int, m: int)
    requires
        m >= 0,
        iabs(a) <= m,
        iabs(b) <= SCALE as int,
    ensures
        iabs(fx_mul(a, b)) <= m,
{
    reveal(fx_mul);
    assert(iabs(a * b) <= m * (SCALE as int)) by (nonlinear_arith)
        requires
            m >= 0,
            iabs(a) <= m,
            iabs(b) <= SCALE as int,
    ;
    lemma_tdiv_bound(a * b, SCALE as int, m);
}

/// A truncated quotient keeps the sign of its numerator.
pub proof fn lemma_tdiv_sign(a: int, b: int)
    requires
        b > 0,
    ensures
        a >= 0 ==> tdiv(a, b) >= 0,
        a <= 0 ==> tdiv(a, b) <= 0,
{
    if a > 0 {
        vstd::arithmetic::div_mod::lemma_div_pos_is_pos(a, b);
    } else if a < 0 {
        vstd::arithmetic::div_mod::lemma_div_pos_is_pos(-a, b);
    } else {
        vstd::arithmetic::div_mod::lemma_div_of0(b);
    }
}

/// Negating the numerator negates the truncated quotient.
pub proof fn lemma_tdiv_neg(a: int, b: int)
    requires
        b > 0,
    ensures
        tdiv(-a, b) == -tdiv(a, b),
{
}

/// Truncating the quotient of a fixed numerator by a growing positive
/// denominator never grows in magnitude.
pub proof fn lemma_tdiv_denominator(a: int, b1: int, b2: int)
    requires
        0 < b1 <= b2,
    ensures
        iabs(tdiv(a, b2)) <= iabs(tdiv(a, b1)),
{
    if a >= 0 {
        lemma_div_is_ordered_by_denominator(a, b1, b2);
        vstd::arithmetic::div_mod::lemma_div_pos_is_pos(a, b1);
        vstd::arithmetic::div_mod::lemma_div_pos_is_pos(a, b2);
    } else {
        lemma_div_is_ordered_by_denominator(-a, b1, b2);
        vstd::arithmetic::div_mod::lemma_div_pos_is_pos(-a, b1);
        vstd::arithmetic::div_mod::lemma_div_pos_is_pos(-a, b2);
    }
}

/// Truncated division of a 64-bit integer by a positive divisor.
pub fn tdiv64(a: i64, b: i64) -> (r: i64)
    requires
        b > 0,
        a > i64::MIN,
    ensures
        r == tdiv(a as int, b as int),
        iabs(r as int) <= iabs(a as int),
{
    if a >= 0 {
        proof {
            lemma_div_nonincreasing(a as int, b as int);
        }
        ((a as u64) / (b as u64)) as i64
    } else {
        let n: u64 = (-a) as u64;
        proof {
            lemma_div_nonincreasing(n as int, b as int);
        }
        let q: u64 = n / (b as u64);
        -(q as i64)
    }
}

/// Truncated division of a 128-bit integer by a positive divisor.
pub fn tdiv128(a: i128, b: i128) -> (r: i128)
    requires
        b > 0,
        a > i128::MIN,
    ensures
        r == tdiv(a as int, b as int),
        iabs(r as int) <= iabs(a as int),
{
    if a >= 0 {
        proof {
            lemma_div_nonincreasing(a as int, b as int);
        }
        ((a as u128) / (b as u128)) as i128
    } else {
        let n: u128 = (-a) as u128;
        proof {
            lemma_div_nonincreasing(n as int, b as int);
        }
        let q: u128 = n / (b as u128);
        -(q as i128)
    }
}

/// Exact fixed-point product: `r` is `a * b / SCALE`, truncated toward zero.
/// The bound on `a * b` keeps the result well inside the `i64` range.
pub fn fxmul(a: i64, b: i64) -> (r: i64)
    requires
        iabs(a as int * b as int) <= 0x4000_0000_0000_0000_0000,
    ensures
        r == fx_mul(a as int, b as int),
        iabs(r as int) <= 0x4000_0000_0000_0000,
{
    let p: i128 = (a as i128) * (b as i128);
    proof {
        reveal(fx_mul);
        lemma_tdiv_bound(p as int, SCALE as int, 0x4000_0000_0000_0000);
    }
    let q: i128 = tdiv128(p, 65536);
    q as i64
}

/// Exact fixed-point quotient: `r` is `a * SCALE / b`, truncated toward zero.
pub fn fxdiv(a: i64, b: i64) -> (r: i64)
    requires
        b > 0,
        iabs(a as int) <= 0x4000_0000_0000,
    ensures
        r == fx_div(a as int, b as int),
        iabs(r as int) <= 0x4000_0000_0000_0000,
{
    let p: i128 = (a as i128) * 65536;
    proof {
        lemma_tdiv_nonincreasing(p as int, b as int);
    }
    let q: i128 = tdiv128(p, b as i128);
    q as i64
}

/// Euclidean remainder: the value in `[0, m)` congruent to `a` modulo `m`.
pub fn imod64(a: i64, m: i64) -> (r: i64)
    requires
        m > 0,
        a > i64::MIN,
    ensures
        r == a as int % m as int,
        0 <= r < m,
{
    if a >= 0 {
        ((a as u64) % (m as u64)) as i64
    } else {
        let k: u64 = ((-a) as u64) % (m as u64);
        if k == 0 {
            proof {
                let n = (-a) as int;
                let q = n / m as int;
                assert(n == m * q + (n % m as int)) by {
                    vstd::arithmetic::div_mod::lemma_fundamental_div_mod(n, m as int);
                }
                assert(a as int == m as int * (-q) + 0) by (nonlinear_arith)
                    requires
                        n == m as int * q,
                        n == -(a as int),
                ;
                lemma_fundamental_div_mod_converse_mod(a as int, m as int, -q, 0);
            }
            0
        } else {
            proof {
                let n = (-a) as int;
                let q = n / m as int;
                assert(n == m * q + (n % m as int)) by {
                    vstd::arithmetic::div_mod::lemma_fundamental_div_mod(n, m as int);
                }
                assert(a as int == m as int * (-q - 1) + (m - k)) by (nonlinear_arith)
                    requires
                        n == -(a as int),
                        n == m as int * q + k,
                ;
                lemma_fundamental_div_mod_converse_mod(a as int, m as int, -q - 1, m as int - k);
            }
            m - (k as i64)
        }
    }
}

/// A scalar clamped into `[0, SCALE]`, the fixed-point image of `[0, 1]`.
pub open spec fn clamp_unit(a: int) -> int {
    if a < 0 {
        0
    } else if a > SCALE as int {
        SCALE as int
    } else {
        a
    }
}

/// Clamp a scalar into `[0, SCALE]`.
pub fn clamp_unit_of(a: i64) -> (r: i64)
    ensures
        r == clamp_unit(a as int),
{
    if a < 0 {
        0
    } else if a > SCALE {
        SCALE
    } else {
        a
    }
}

/// The integer square root: the largest `r` with `r * r <= n`.
pub fn isqrt(n: u128) -> (r: u64)
    ensures
        r as int * r as int <= n as int,
        (n as int) < ((r as int) + 1) * ((r as int) + 1),
{
    let mut lo: u128 = 0;
    let mut hi: u128 = 0x1_0000_0000_0000_0000;
    proof {
        assert(hi as int * hi as int > n as int) by (nonlinear_arith)
            requires
                hi == 0x1_0000_0000_0000_0000u128,
                n <= u128::MAX,
        ;
    }
    while hi - lo > 1
        invariant
            0 <= lo < hi <= 0x1_0000_0000_0000_0000,
            lo as int * lo as int <= n as int,
            hi as int * hi as int > n as int,
        decreases hi - lo,
    {
        let mid: u128 = lo + (hi - lo) / 2;
        proof {
            assert(mid as int * mid as int <= 0xffff_ffff_ffff_ffffint
                * 0xffff_ffff_ffff_ffffint) by (nonlinear_arith)
                requires
                    0 <= mid as int <= 0xffff_ffff_ffff_ffffint,
            ;
        }
        if mid * mid <= n {
            lo = mid;
        } else {
            hi = mid;
        }
    }
    lo as u64
}

/// The saturation of a 128-bit value into the `i64` range.
pub fn sat64_of(a: i128) -> (r: i64)
    ensures
        r == sat64(a as int),
{
    if a > 0x7fff_ffff_ffff_ffff {
        i64::MAX
    } else if a < -0x8000_0000_0000_0000 {
        i64::MIN
    } else {
        a as i64
    }
}

} // verus!
