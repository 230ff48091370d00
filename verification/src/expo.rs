//! Framerate-independent smoothing interpolant.
//!
//! The interpolation factor for one tick is `UNIT - exp(-8 * dt / max(s, eps))`
//! in fixed point, where `s` is the smoothness and `dt` the elapsed time, both
//! in micro-units. A zero smoothness makes the factor saturate at one whole
//! unit, so the smoothed value snaps to its target.

use vstd::prelude::*;
use crate::fixed::{UNIT, MAX_RAW};
use vstd::arithmetic::div_mod::{
    lemma_div_pos_is_pos,
    lemma_div_is_ordered,
    lemma_div_of0,
    lemma_fundamental_div_mod,
    lemma_mod_bound,
};
use vstd::arithmetic::mul::lemma_mul_upper_bound;

verus! {

/// The reciprocal of Euler's number, in micro-units.
pub const INV_E: i64 = 367_879;

/// Beyond fourteen whole units the exponential rounds to zero micro-units.
pub const EXP_CAP: i64 = 14_000_000;

/// The ad-hoc multiplier applied to elapsed time, chosen so that default
/// smoothness values feel right.
pub const SMOOTH_MULT: i64 = 8;

/// The quotient of nonnegative bounded factors is bounded.
proof fn lemma_mul_div_bound(a: int, amax: int, b: int, bmax: int, d: int)
    requires
        0 <= a <= amax,
        0 <= b <= bmax,
        0 < d,
    ensures
        0 <= a * b / d <= amax * bmax / d,
{
    lemma_mul_upper_bound(a, amax, b, bmax);
    lemma_div_pos_is_pos(a * b, d);
    lemma_div_is_ordered(a * b, amax * bmax, d);
}

/// Alternating series for `exp(-x)` with `0 <= x <= UNIT`, saturated into
/// `[0, UNIT]`.
pub open spec fn exp_frac(x: int) -> int {
    let u = UNIT as int;
    let x2 = x * x / u;
    let x3 = x2 * x / u;
    let x4 = x3 * x / u;
    let x5 = x4 * x / u;
    let x6 = x5 * x / u;
    let pos = u + x2 / 2 + x4 / 24 + x6 / 720;
    let neg = x + x3 / 6 + x5 / 120;
    if neg >= pos {
        0
    } else if pos - neg > u {
        u
    } else {
        pos - neg
    }
}

/// Scale `e` by the reciprocal of Euler's number, `k` times.
pub open spec fn pow_inv_e(e: int, k: int) -> int
    decreases k,
{
    if k <= 0 {
        e
    } else {
        pow_inv_e(e * (INV_E as int) / (UNIT as int), k - 1)
    }
}

/// `exp(-x)` for any nonnegative fixed-point `x`, via the unit decomposition
/// `x = k * UNIT + f`.
pub open spec fn exp_neg(x: int) -> int {
    if x >= EXP_CAP as int {
        0
    } else {
        pow_inv_e(exp_frac(x % (UNIT as int)), x / (UNIT as int))
    }
}

/// The saturated series stays within `[0, UNIT]` and is exact at zero.
pub proof fn lemma_exp_frac_bounds(x: int)
    requires
        0 <= x <= UNIT as int,
    ensures
        0 <= exp_frac(x) <= UNIT as int,
        x == 0 ==> exp_frac(x) == UNIT as int,
{
    let u = UNIT as int;
    if x == 0 {
        lemma_div_of0(u);
        assert(x * x == 0) by (nonlinear_arith)
            requires
                x == 0,
        ;
        assert((0int) / u * x / u == 0) by (nonlinear_arith)
            requires
                (0int) / u == 0,
        ;
        assert(exp_frac(0) == u);
    }
}

/// Repeated scaling by `INV_E / UNIT` keeps a value within `[0, UNIT]`.
pub proof fn lemma_pow_inv_e_bounds(e: int, k: int)
    requires
        0 <= e <= UNIT as int,
    ensures
        0 <= pow_inv_e(e, k) <= e,
    decreases k,
{
    if k > 0 {
        lemma_mul_div_bound(e, UNIT as int, INV_E as int, INV_E as int, UNIT as int);
        lemma_mul_div_bound(e, e, INV_E as int, UNIT as int, UNIT as int);
        lemma_pow_inv_e_bounds(e * (INV_E as int) / (UNIT as int), k - 1);
    }
}

/// The exponential stays within `[0, UNIT]`, is one whole unit at zero and
/// zero at or beyond the cap.
pub proof fn lemma_exp_neg_bounds(x: int)
    requires
        x >= 0,
    ensures
        0 <= exp_neg(x) <= UNIT as int,
        x == 0 ==> exp_neg(x) == UNIT as int,
        x >= EXP_CAP as int ==> exp_neg(x) == 0,
{
    let u = UNIT as int;
    if x < EXP_CAP as int {
        lemma_mod_bound(x, u);
        lemma_exp_frac_bounds(x % u);
        lemma_pow_inv_e_bounds(exp_frac(x % u), x / u);
        if x == 0 {
            lemma_div_of0(u);
            assert(x % u == 0);
        }
    }
}

/// The per-tick interpolation factor for smoothness `s` and elapsed time
/// `dt`, both nonnegative and in micro-units.
pub open spec fn interp_of(s: int, dt: int) -> int {
    let d = if s < 1 {
        1
    } else {
        s
    };
    UNIT as int - exp_neg(SMOOTH_MULT as int * dt * (UNIT as int) / d)
}

/// The interpolation factor always lies in `[0, UNIT]`; no factor at all
/// when no time has passed, a full snap when the smoothness is zero and any
/// measurable time has passed.
pub proof fn lemma_interp_of_bounds(s: int, dt: int)
    requires
        s >= 0,
        dt >= 0,
    ensures
        0 <= interp_of(s, dt) <= UNIT as int,
        dt == 0 ==> interp_of(s, dt) == 0,
        s == 0 && dt >= 2 ==> interp_of(s, dt) == UNIT as int,
{
    let u = UNIT as int;
    let d = if s < 1 { 1int } else { s };
    let num = SMOOTH_MULT as int * dt * u;
    lemma_div_pos_is_pos(num, d);
    lemma_exp_neg_bounds(num / d);
    if dt == 0 {
        lemma_div_of0(d);
    }
    if s == 0 && dt >= 2 {
        vstd::arithmetic::div_mod::lemma_div_multiples_vanish(num, 1);
        assert(num >= EXP_CAP as int);
    }
}

/// Executable saturated exponential series.
fn exp_frac_f(x: u64) -> (r: u64)
    requires
        x <= UNIT as u64,
    ensures
        r == exp_frac(x as int),
        r <= UNIT as u64,
{
    proof {
        lemma_exp_frac_bounds(x as int);
        lemma_mul_div_bound(x as int, UNIT as int, x as int, UNIT as int, UNIT as int);
    }
    let u = UNIT as u64;
    let x2 = x * x / u;
    proof {
        lemma_mul_div_bound(x2 as int, UNIT as int, x as int, UNIT as int, UNIT as int);
    }
    let x3 = x2 * x / u;
    proof {
        lemma_mul_div_bound(x3 as int, UNIT as int, x as int, UNIT as int, UNIT as int);
    }
    let x4 = x3 * x / u;
    proof {
        lemma_mul_div_bound(x4 as int, UNIT as int, x as int, UNIT as int, UNIT as int);
    }
    let x5 = x4 * x / u;
    proof {
        lemma_mul_div_bound(x5 as int, UNIT as int, x as int, UNIT as int, UNIT as int);
    }
    let x6 = x5 * x / u;
    let pos = u + x2 / 2 + x4 / 24 + x6 / 720;
    let neg = x + x3 / 6 + x5 / 120;
    if neg >= pos {
        0
    } else if pos - neg > u {
        u
    } else {
        pos - neg
    }
}

/// Executable exponential of a nonpositive fixed-point exponent.
pub fn exp_neg_f(x: u64) -> (r: u64)
    ensures
        r == exp_neg(x as int),
        r <= UNIT as u64,
        x == 0 ==> r == UNIT as u64,
        x >= EXP_CAP as u64 ==> r == 0,
{
    proof {
        lemma_exp_neg_bounds(x as int);
    }
    if x >= EXP_CAP as u64 {
        return 0;
    }
    let u = UNIT as u64;
    let k = x / u;
    let f = x % u;
    proof {
        lemma_fundamental_div_mod(x as int, u as int);
        lemma_mod_bound(x as int, u as int);
        lemma_div_pos_is_pos(x as int, u as int);
        lemma_div_is_ordered(x as int, EXP_CAP as int, u as int);
    }
    let e0 = exp_frac_f(f);
    let mut e = e0;
    let mut i: u64 = 0;
    while i < k
        invariant
            i <= k,
            k <= 14,
            u == UNIT as u64,
            e <= UNIT as u64,
            pow_inv_e(e as int, k - i) == pow_inv_e(e0 as int, k as int),
        decreases k - i,
    {
        proof {
            lemma_mul_div_bound(e as int, UNIT as int, INV_E as int, INV_E as int, UNIT as int);
            lemma_mul_div_bound(e as int, e as int, INV_E as int, UNIT as int, UNIT as int);
        }
        e = e * (INV_E as u64) / u;
        i = i + 1;
    }
    e
}

/// Executable interpolation factor: zero when no time has passed, one whole
/// unit (an exact snap) when the smoothness is zero and any measurable time
/// has passed.
pub fn interp_f(s: i64, dt: i64) -> (r: i64)
    requires
        0 <= s <= MAX_RAW,
        0 <= dt <= MAX_RAW,
    ensures
        r == interp_of(s as int, dt as int),
        0 <= r <= UNIT,
        dt == 0 ==> r == 0,
        s == 0 && dt >= 2 ==> r == UNIT,
{
    let d: u64 = if s < 1 {
        1
    } else {
        s as u64
    };
    proof {
        assert((SMOOTH_MULT as int) * (dt as int) * (UNIT as int) <= 8_000_000_000_000_000_000
            && (SMOOTH_MULT as int) * (dt as int) <= 8_000_000_000_000) by (nonlinear_arith)
            requires
                0 <= dt <= MAX_RAW as int,
        ;
    }
    let num = (SMOOTH_MULT as u64) * (dt as u64) * (UNIT as u64);
    let x = num / d;
    proof {
        let xi = SMOOTH_MULT as int * (dt as int) * (UNIT as int);
        assert(xi == num as int) by (nonlinear_arith)
            requires
                0 <= dt <= MAX_RAW as int,
                num as int == (SMOOTH_MULT as int * (dt as int)) * (UNIT as int),
                xi == SMOOTH_MULT as int * (dt as int) * (UNIT as int),
        ;
        lemma_div_pos_is_pos(num as int, d as int);
        if dt == 0 {
            lemma_div_of0(d as int);
        }
        if s == 0 && dt >= 2 {
            assert(num as int / 1 == num as int) by {
                lemma_fundamental_div_mod(num as int, 1);
            }
        }
        lemma_exp_neg_bounds(x as int);
    }
    let ex = exp_neg_f(x);
    UNIT - (ex as i64)
}

} // verus!
