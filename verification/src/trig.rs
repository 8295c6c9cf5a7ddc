//! Sine and cosine on fixed-point angles.
//!
//! Angles are scalars in radians (see `fixed`). The sine is computed by a
//! rational approximation on `[0, pi]` and extended to all angles by
//! periodicity and odd symmetry; the cosine is the sine shifted a quarter
//! turn. The approximation is exact at multiples of a quarter turn: the
//! sine of `0` and of `PI_FX` is `0`, the sine of `HALF_PI_FX` is `SCALE`,
//! which makes a rotation by angle zero the exact identity.

use vstd::prelude::*;

verus! {

use crate::fixed::SCALE;
use crate::fixed::iabs;
use crate::fixed::imod64;
use vstd::arithmetic::div_mod::lemma_div_is_ordered;
use vstd::arithmetic::div_mod::lemma_div_pos_is_pos;
use vstd::arithmetic::div_mod::lemma_mod_division_less_than_divisor;
use vstd::arithmetic::div_mod::lemma_multiply_divide_le;

/// Half a turn: pi scaled by `SCALE`, rounded to the nearest even integer.
pub const PI_FX: i64 = 205888;

/// A quarter turn: half of `PI_FX`.
pub const HALF_PI_FX: i64 = 102944;

/// A full turn: twice `PI_FX`.
pub const TAU_FX: i64 = 411776;

/// The sine of `x` for `x` in `[0, PI_FX]`:
/// `16 p SCALE / (5 pi^2 - 4 p)` with `p = x (pi - x)`, truncated.
#[verifier::opaque]
pub open spec fn half_sine(x: int) -> int
    recommends
        0 <= x <= PI_FX as int,
{
    let p = x * (PI_FX as int - x);
    (16 * p * (SCALE as int)) / (5 * (PI_FX as int) * (PI_FX as int) - 4 * p)
}

/// The sine of any fixed-point angle: reduce modulo a full turn, then use
/// `half_sine` on `[0, pi]` and its negation on `[pi, 2 pi]`.
pub open spec fn sin_fx(a: int) -> int {
    let m = a % (TAU_FX as int);
    if m <= PI_FX as int {
        half_sine(m)
    } else {
        -half_sine(m - PI_FX as int)
    }
}

/// The cosine of any fixed-point angle: the sine a quarter turn later.
pub open spec fn cos_fx(a: int) -> int {
    sin_fx(a + HALF_PI_FX as int)
}

pub proof fn lemma_half_sine_bounds(x: int)
    requires
        0 <= x <= PI_FX as int,
    ensures
        0 <= half_sine(x) <= SCALE as int,
{
    reveal(half_sine);
    let p = x * (PI_FX as int - x);
    assert(0 <= p && p <= (HALF_PI_FX as int) * (HALF_PI_FX as int)) by (nonlinear_arith)
        requires
            0 <= x <= PI_FX as int,
            p == x * (PI_FX as int - x),
    ;
    let num = 16 * p * (SCALE as int);
    let den = 5 * (PI_FX as int) * (PI_FX as int) - 4 * p;
    assert(den > 0);
    lemma_div_pos_is_pos(num, den);
    assert(num <= den * (SCALE as int));
    lemma_multiply_divide_le(num, den, SCALE as int);
}

pub proof fn lemma_sin_cos_bounded(a: int)
    ensures
        iabs(sin_fx(a)) <= SCALE as int,
        iabs(cos_fx(a)) <= SCALE as int,
{
    lemma_mod_division_less_than_divisor(a, TAU_FX as int);
    let m = a % (TAU_FX as int);
    if m <= PI_FX as int {
        lemma_half_sine_bounds(m);
    } else {
        lemma_half_sine_bounds(m - PI_FX as int);
    }
    let a2 = a + HALF_PI_FX as int;
    lemma_mod_division_less_than_divisor(a2, TAU_FX as int);
    let m2 = a2 % (TAU_FX as int);
    if m2 <= PI_FX as int {
        lemma_half_sine_bounds(m2);
    } else {
        lemma_half_sine_bounds(m2 - PI_FX as int);
    }
}

/// An angle of zero has sine `0` and cosine exactly `SCALE`: rotating by a
/// zero angle moves nothing.
pub proof fn lemma_sin_cos_zero()
    ensures
        sin_fx(0) == 0,
        cos_fx(0) == SCALE as int,
{
    reveal(half_sine);
    assert(0int % (TAU_FX as int) == 0);
    assert(half_sine(0) == 0);
    assert((102944int) % (TAU_FX as int) == 102944);
    assert(half_sine(102944) == SCALE as int) by {
        let p = 102944int * (PI_FX as int - 102944);
        let den = 5 * (PI_FX as int) * (PI_FX as int) - 4 * p;
        assert(16 * p * (SCALE as int) == den * (SCALE as int));
        vstd::arithmetic::div_mod::lemma_div_multiples_vanish(SCALE as int, den);
    }
}

/// Away from its zeroes the approximated sine is at least one step: the
/// numerator reaches the denominator from one step in up to one step short
/// of a half turn.
pub proof fn lemma_half_sine_pos(x: int)
    requires
        1 <= x <= PI_FX as int - 1,
    ensures
        half_sine(x) >= 1,
{
    reveal(half_sine);
    let p = x * (PI_FX as int - x);
    assert(p >= PI_FX as int - 1) by (nonlinear_arith)
        requires
            1 <= x <= PI_FX as int - 1,
            p == x * (PI_FX as int - x),
    ;
    lemma_half_sine_bounds(x);
    assert(p <= (HALF_PI_FX as int) * (HALF_PI_FX as int)) by (nonlinear_arith)
        requires
            0 <= x <= PI_FX as int,
            p == x * (PI_FX as int - x),
    ;
    let num = 16 * p * (SCALE as int);
    let den = 5 * (PI_FX as int) * (PI_FX as int) - 4 * p;
    assert(den > 0);
    assert(num >= den) by (nonlinear_arith)
        requires
            p >= PI_FX as int - 1,
            num == 16 * p * (SCALE as int),
            den == 5 * (PI_FX as int) * (PI_FX as int) - 4 * p,
    ;
    vstd::arithmetic::div_mod::lemma_div_by_self(den);
    lemma_div_is_ordered(den, num, den);
}

fn half_sine_at(x: i64) -> (r: i64)
    requires
        0 <= x <= PI_FX,
    ensures
        r == half_sine(x as int),
        0 <= r <= SCALE,
{
    proof {
        reveal(half_sine);
        lemma_half_sine_bounds(x as int);
        assert(0 <= x as int * (PI_FX as int - x) <= (HALF_PI_FX as int) * (
        HALF_PI_FX as int)) by (nonlinear_arith)
            requires
                0 <= x as int <= PI_FX as int,
        ;
    }
    let p: i64 = x * (205888 - x);
    let num: i64 = 16 * p * 65536;
    let den: i64 = 5 * 205888 * 205888 - 4 * p;
    let q: u64 = (num as u64) / (den as u64);
    proof {
        lemma_multiply_divide_le(num as int, den as int, SCALE as int);
        lemma_div_pos_is_pos(num as int, den as int);
    }
    q as i64
}

/// The sine of a fixed-point angle, exactly `sin_fx` of it.
pub fn fx_sin(a: i64) -> (r: i64)
    requires
        a > i64::MIN,
    ensures
        r == sin_fx(a as int),
        iabs(r as int) <= SCALE as int,
{
    let m: i64 = imod64(a, TAU_FX);
    if m <= PI_FX {
        half_sine_at(m)
    } else {
        let r0 = half_sine_at(m - PI_FX);
        -r0
    }
}

/// The cosine of a fixed-point angle, exactly `cos_fx` of it.
pub fn fx_cos(a: i64) -> (r: i64)
    requires
        a > i64::MIN,
        a <= i64::MAX - HALF_PI_FX,
    ensures
        r == cos_fx(a as int),
        iabs(r as int) <= SCALE as int,
{
    fx_sin(a + HALF_PI_FX)
}

} // verus!
