//! Fixed-point sine and cosine over angles in micro-degrees.
//!
//! An angle is an `i64` number of micro-degrees (one degree is 1 000 000).
//! The angle is reduced modulo 360 degrees into a quadrant, folded into
//! `[0, 45]` degrees, converted to micro-radians and fed to a short
//! alternating series. Reduction is exact, so the symmetries that the laws
//! rely on (`sin(a + 180) == -sin(a)`) hold exactly.

use vstd::prelude::*;
use crate::fixed::{in_range, UNIT, emod_f};
use vstd::arithmetic::div_mod::{
    lemma_div_pos_is_pos,
    lemma_div_is_ordered,
    lemma_div_is_ordered_by_denominator,
    lemma_fundamental_div_mod,
    lemma_fundamental_div_mod_converse,
    lemma_small_mod,
    lemma_add_mod_noop,
};
use vstd::arithmetic::mul::lemma_mul_upper_bound;

verus! {

/// Forty-five degrees, in micro-degrees.
pub const DEG_45: i64 = 45_000_000;

/// Ninety degrees, in micro-degrees.
pub const DEG_90: i64 = 90_000_000;

/// Half a turn, in micro-degrees.
pub const DEG_180: i64 = 180_000_000;

/// A full turn, in micro-degrees.
pub const DEG_360: i64 = 360_000_000;

/// Two full turns, in micro-degrees (the yaw range).
pub const DEG_720: i64 = 720_000_000;

/// Micro-radians per degree, scaled by one thousand (0.017453293 * 10^9).
pub const RAD_PER_DEG_E9: i64 = 17_453_293;

/// Largest micro-radian argument of the series kernels (45 degrees).
pub const RAD_45: i64 = 785_399;

/// Micro-degrees (at most 45 degrees) to micro-radians, rounding down.
pub open spec fn rad_of(d: int) -> int {
    d * (RAD_PER_DEG_E9 as int) / 1_000_000_000
}

/// Alternating series for the sine of `x` micro-radians, `0 <= x <= RAD_45`.
pub open spec fn sin_poly(x: int) -> int {
    let u = UNIT as int;
    let x2 = x * x / u;
    let x3 = x2 * x / u;
    let x5 = x3 * x2 / u;
    let x7 = x5 * x2 / u;
    (x + x5 / 120) - (x3 / 6 + x7 / 5040)
}

/// Alternating series for the cosine of `x` micro-radians, `0 <= x <= RAD_45`.
pub open spec fn cos_poly(x: int) -> int {
    let u = UNIT as int;
    let x2 = x * x / u;
    let x4 = x2 * x2 / u;
    let x6 = x4 * x2 / u;
    (u + x4 / 24) - (x2 / 2 + x6 / 720)
}

/// Sine of an angle already reduced to the first quadrant, folded at 45
/// degrees onto the two series kernels.
pub open spec fn sin_q(r: int) -> int {
    if r <= DEG_45 as int {
        sin_poly(rad_of(r))
    } else {
        cos_poly(rad_of(DEG_90 as int - r))
    }
}

/// Sine of any angle in micro-degrees, by quadrant reduction.
pub open spec fn sin_ud(a: int) -> int {
    let m = a % (DEG_360 as int);
    if m <= DEG_90 as int {
        sin_q(m)
    } else if m <= DEG_180 as int {
        sin_q(DEG_180 as int - m)
    } else if m <= DEG_180 as int + DEG_90 as int {
        -sin_q(m - DEG_180 as int)
    } else {
        -sin_q(DEG_360 as int - m)
    }
}

/// Cosine of any angle, as the sine shifted by a quarter turn.
pub open spec fn cos_ud(a: int) -> int {
    sin_ud(a + DEG_90 as int)
}

/// Widest magnitude of angle the executable trigonometry accepts.
pub const ANG_MAX: i64 = 900_000_000_000;

/// The quotient `a*b/d` of nonnegative bounded factors is bounded by the
/// quotient of the bounds.
proof fn lemma_mul_div_bound(a: int, amax: int, b: int, bmax: int, d: int)
    requires
        0 <= a <= amax,
        0 <= b <= bmax,
        0 < d,
    ensures
        0 <= a * b / d <= amax * bmax / d,
{
    lemma_mul_upper_bound(a, amax, b, bmax);
    lemma_div_pos_is_pos(a * b, d);
    lemma_div_is_ordered(a * b, amax * bmax, d);
}

/// Bounds for the sine kernel: the result never leaves `[0, UNIT)`, and a
/// zero argument gives exactly zero.
pub proof fn lemma_sin_poly_bounds(x: int)
    requires
        0 <= x <= RAD_45 as int,
    ensures
        0 <= sin_poly(x) < UNIT as int,
        x == 0 ==> sin_poly(x) == 0,
{
    let u = UNIT as int;
    let x2 = x * x / u;
    let x3 = x2 * x / u;
    let x5 = x3 * x2 / u;
    let x7 = x5 * x2 / u;
    lemma_mul_div_bound(x, RAD_45 as int, x, RAD_45 as int, u);
    assert(x2 <= 616851);
    lemma_mul_div_bound(x2, u, x, x, u);
    lemma_mul_div_bound(x3, x3, x2, u, u);
    lemma_mul_div_bound(x5, x5, x2, u, u);
    assert(x3 <= x && x5 <= x3 && x7 <= x5);
    lemma_div_is_ordered(x3, x, 6);
    lemma_div_is_ordered(x7, x, 5040);
    lemma_div_pos_is_pos(x3, 6);
    lemma_div_pos_is_pos(x5, 120);
    lemma_div_pos_is_pos(x7, 5040);
    lemma_div_is_ordered_by_denominator(x, 2, 6);
    lemma_div_is_ordered_by_denominator(x, 2, 5040);
    lemma_fundamental_div_mod(x, 2);
    assert(x3 / 6 + x7 / 5040 <= x);
    lemma_div_is_ordered(x5, RAD_45 as int, 120);
}

/// Bounds for the cosine kernel: the result never leaves `[0, UNIT]`, and a
/// zero argument gives exactly one unit.
pub proof fn lemma_cos_poly_bounds(x: int)
    requires
        0 <= x <= RAD_45 as int,
    ensures
        0 <= cos_poly(x) <= UNIT as int,
        x == 0 ==> cos_poly(x) == UNIT as int,
{
    let u = UNIT as int;
    let x2 = x * x / u;
    let x4 = x2 * x2 / u;
    let x6 = x4 * x2 / u;
    lemma_mul_div_bound(x, RAD_45 as int, x, RAD_45 as int, u);
    assert(x2 <= 616851);
    lemma_mul_div_bound(x2, x2, x2, u, u);
    lemma_mul_div_bound(x4, x4, x2, u, u);
    assert(x4 <= x2 && x6 <= x4);
    lemma_div_is_ordered(x4, x2, 24);
    lemma_div_is_ordered_by_denominator(x2, 2, 24);
    lemma_div_is_ordered(x6, 616851, 720);
    lemma_div_is_ordered(x2, 616851, 2);
    lemma_div_pos_is_pos(x2, 2);
    lemma_div_pos_is_pos(x4, 24);
    lemma_div_pos_is_pos(x6, 720);
}

/// The quadrant sine stays within `[0, UNIT]`, is zero at zero and one unit
/// at ninety degrees.
pub proof fn lemma_sin_q_bounds(r: int)
    requires
        0 <= r <= DEG_90 as int,
    ensures
        0 <= sin_q(r) <= UNIT as int,
        r == 0 ==> sin_q(r) == 0,
        r == DEG_90 as int ==> sin_q(r) == UNIT as int,
{
    if r <= DEG_45 as int {
        lemma_rad_of_bounds(r);
        lemma_sin_poly_bounds(rad_of(r));
    } else {
        lemma_rad_of_bounds(DEG_90 as int - r);
        lemma_cos_poly_bounds(rad_of(DEG_90 as int - r));
        if r == DEG_90 as int {
            assert(rad_of(0) == 0);
        }
    }
}

/// Degrees-to-radians conversion maps `[0, 45]` degrees into `[0, RAD_45]`.
proof fn lemma_rad_of_bounds(d: int)
    requires
        0 <= d <= DEG_45 as int,
    ensures
        0 <= rad_of(d) <= RAD_45 as int,
        d == 0 ==> rad_of(d) == 0,
{
    lemma_mul_div_bound(d, DEG_45 as int, RAD_PER_DEG_E9 as int, RAD_PER_DEG_E9 as int,
        1_000_000_000);
}

/// The full-circle sine stays within `[-UNIT, UNIT]`.
pub proof fn lemma_sin_ud_bounds(a: int)
    ensures
        -(UNIT as int) <= sin_ud(a) <= UNIT as int,
{
    let mm = DEG_360 as int;
    vstd::arithmetic::div_mod::lemma_mod_bound(a, mm);
    let m = a % mm;
    if m <= DEG_90 as int {
        lemma_sin_q_bounds(m);
    } else if m <= DEG_180 as int {
        lemma_sin_q_bounds(DEG_180 as int - m);
    } else if m <= DEG_180 as int + DEG_90 as int {
        lemma_sin_q_bounds(m - DEG_180 as int);
    } else {
        lemma_sin_q_bounds(mm - m);
    }
}

/// Sine kernel on micro-radians.
fn sin_poly_f(x: u64) -> (r: u64)
    requires
        x <= RAD_45 as u64,
    ensures
        r == sin_poly(x as int),
        r < UNIT as u64,
{
    proof {
        lemma_sin_poly_bounds(x as int);
        lemma_mul_div_bound(x as int, 999_999, x as int, 999_999, UNIT as int);
    }
    let u = UNIT as u64;
    let x2 = x * x / u;
    proof {
        lemma_mul_div_bound(x2 as int, 999_999, x as int, 999_999, UNIT as int);
    }
    let x3 = x2 * x / u;
    proof {
        lemma_mul_div_bound(x3 as int, 999_999, x2 as int, 999_999, UNIT as int);
    }
    let x5 = x3 * x2 / u;
    proof {
        lemma_mul_div_bound(x5 as int, 999_999, x2 as int, 999_999, UNIT as int);
    }
    let x7 = x5 * x2 / u;
    let pos = x + x5 / 120;
    let neg = x3 / 6 + x7 / 5040;
    pos - neg
}

/// Cosine kernel on micro-radians.
fn cos_poly_f(x: u64) -> (r: u64)
    requires
        x <= RAD_45 as u64,
    ensures
        r == cos_poly(x as int),
        r <= UNIT as u64,
{
    proof {
        lemma_cos_poly_bounds(x as int);
        lemma_mul_div_bound(x as int, 999_999, x as int, 999_999, UNIT as int);
    }
    let u = UNIT as u64;
    let x2 = x * x / u;
    proof {
        lemma_mul_div_bound(x2 as int, 999_999, x2 as int, 999_999, UNIT as int);
    }
    let x4 = x2 * x2 / u;
    proof {
        lemma_mul_div_bound(x4 as int, 999_999, x2 as int, 999_999, UNIT as int);
    }
    let x6 = x4 * x2 / u;
    let pos = u + x4 / 24;
    let neg = x2 / 2 + x6 / 720;
    pos - neg
}

/// Micro-degrees (at most 45 degrees) to micro-radians.
fn rad_f(d: i64) -> (r: u64)
    requires
        0 <= d <= DEG_45,
    ensures
        r == rad_of(d as int),
        r <= RAD_45 as u64,
{
    proof {
        lemma_rad_of_bounds(d as int);
    }
    (d as u64) * (RAD_PER_DEG_E9 as u64) / 1_000_000_000
}

/// Sine of an angle in the first quadrant.
fn sin_q_f(r: i64) -> (s: i64)
    requires
        0 <= r <= DEG_90,
    ensures
        s == sin_q(r as int),
        0 <= s <= UNIT,
{
    proof {
        lemma_sin_q_bounds(r as int);
    }
    if r <= DEG_45 {
        sin_poly_f(rad_f(r)) as i64
    } else {
        cos_poly_f(rad_f(DEG_90 - r)) as i64
    }
}

/// Sine of any in-range angle in micro-degrees.
pub fn sin_ud_f(a: i64) -> (s: i64)
    requires
        in_range(a as int),
    ensures
        s == sin_ud(a as int),
        -UNIT <= s <= UNIT,
{
    let m = emod_f(a, DEG_360);
    if m <= DEG_90 {
        sin_q_f(m)
    } else if m <= DEG_180 {
        sin_q_f(DEG_180 - m)
    } else if m <= DEG_180 + DEG_90 {
        -sin_q_f(m - DEG_180)
    } else {
        -sin_q_f(DEG_360 - m)
    }
}

/// Cosine of any angle within `ANG_MAX` micro-degrees.
pub fn cos_ud_f(a: i64) -> (s: i64)
    requires
        -ANG_MAX <= a <= ANG_MAX,
    ensures
        s == cos_ud(a as int),
        -UNIT <= s <= UNIT,
{
    sin_ud_f(a + DEG_90)
}

/// Shifting an angle by half a turn negates its sine exactly.
pub proof fn lemma_sin_shift_half_turn(a: int)
    ensures
        sin_ud(a + DEG_180 as int) == -sin_ud(a),
{
    let mm = DEG_360 as int;
    let h = DEG_180 as int;
    vstd::arithmetic::div_mod::lemma_mod_bound(a, mm);
    vstd::arithmetic::div_mod::lemma_mod_bound(a + h, mm);
    let m = a % mm;
    lemma_add_mod_noop(a, h, mm);
    lemma_small_mod(h as nat, mm as nat);
    if m < h {
        lemma_small_mod((m + h) as nat, mm as nat);
        assert((a + h) % mm == m + h);
    } else {
        assert(m + h == 1 * mm + (m - h)) by (nonlinear_arith)
            requires
                mm == 2 * h,
        ;
        lemma_fundamental_div_mod_converse(m + h, mm, 1, m - h);
        assert((a + h) % mm == m - h);
    }
    let m2 = (a + h) % mm;
    lemma_sin_q_bounds(0);
    let q = DEG_90 as int;
    if m <= q {
        if m == 0 {
            assert(sin_ud(a + h) == sin_q(h - m2));
            assert(sin_ud(a) == sin_q(0));
        } else {
            assert(sin_ud(a + h) == -sin_q(m2 - h));
            assert(sin_ud(a) == sin_q(m));
        }
    } else if m <= h {
        if m == h {
            assert(sin_ud(a + h) == sin_q(m2));
            assert(sin_ud(a) == sin_q(h - m));
        } else {
            assert(m2 == m + h);
            assert(sin_ud(a + h) == -sin_q(mm - m2));
            assert(sin_ud(a) == sin_q(h - m));
        }
    } else if m <= h + q {
        assert(m2 == m - h);
        assert(sin_ud(a + h) == sin_q(m2));
        assert(sin_ud(a) == -sin_q(m - h));
    } else {
        assert(m2 == m - h);
        assert(sin_ud(a + h) == sin_q(h - m2));
        assert(sin_ud(a) == -sin_q(mm - m));
    }
}

} // verus!
