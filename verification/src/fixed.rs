//! Saturating fixed-point scalars.
//!
//! A scalar is an `i64` carrying six fractional decimal digits: the value
//! `1.0` is stored as [`UNIT`] = 1 000 000. Every operation clamps its result
//! into `[-MAX_RAW, MAX_RAW]`, so a well-formed scalar can never overflow and
//! invalid inputs are guarded by saturation rather than by panicking.

use vstd::prelude::*;
use vstd::arithmetic::div_mod::{
    lemma_div_pos_is_pos,
    lemma_div_is_ordered,
    lemma_div_multiples_vanish,
    lemma_div_of0,
    lemma_div_by_self,
};
use vstd::arithmetic::mul::lemma_mul_inequality;

verus! {

/// One whole unit: fixed-point values carry six fractional decimal digits.
pub const UNIT: i64 = 1_000_000;

/// Largest magnitude a scalar may take (one million whole units).
pub const MAX_RAW: i64 = 1_000_000_000_000;

/// A scalar is in range when its magnitude is at most `MAX_RAW`.
pub open spec fn in_range(x: int) -> bool {
    -(MAX_RAW as int) <= x <= MAX_RAW as int
}

/// Division truncating toward zero (the divisor is positive).
pub open spec fn tdiv(n: int, d: int) -> int {
    if n >= 0 {
        n / d
    } else {
        -((-n) / d)
    }
}

/// Clamp an integer into the representable scalar range.
pub open spec fn clamped(x: int) -> int {
    if x > MAX_RAW as int {
        MAX_RAW as int
    } else if x < -(MAX_RAW as int) {
        -(MAX_RAW as int)
    } else {
        x
    }
}

/// Saturating addition.
pub open spec fn fadd(a: int, b: int) -> int {
    clamped(a + b)
}

/// Saturating subtraction.
pub open spec fn fsub(a: int, b: int) -> int {
    clamped(a - b)
}

/// Saturating fixed-point product: scale the wide product back down by
/// `UNIT`, truncating toward zero.
pub open spec fn fmul(a: int, b: int) -> int {
    clamped(tdiv(a * b, UNIT as int))
}

/// Exact linear interpolation from `a` toward `b` by `t` (`0 <= t <= UNIT`).
/// The result always lies between `a` and `b`, so it needs no clamping.
pub open spec fn flerp(a: int, b: int, t: int) -> int {
    a + tdiv((b - a) * t, UNIT as int)
}

/// Clamp an `i64` into the scalar range.
pub fn clamp_f(x: i64) -> (r: i64)
    ensures
        r == clamped(x as int),
        in_range(r as int),
{
    if x > MAX_RAW {
        MAX_RAW
    } else if x < -MAX_RAW {
        -MAX_RAW
    } else {
        x
    }
}

/// Saturating addition of two in-range scalars.
pub fn add_f(a: i64, b: i64) -> (r: i64)
    requires
        in_range(a as int),
        in_range(b as int),
    ensures
        r == fadd(a as int, b as int),
        in_range(r as int),
{
    clamp_f(a + b)
}

/// Saturating subtraction of two in-range scalars.
pub fn sub_f(a: i64, b: i64) -> (r: i64)
    requires
        in_range(a as int),
        in_range(b as int),
    ensures
        r == fsub(a as int, b as int),
        in_range(r as int),
{
    clamp_f(a - b)
}

/// Magnitude of an in-range scalar, as a `u64`.
pub(crate) fn mag(a: i64) -> (r: u64)
    requires
        in_range(a as int),
    ensures
        r == if a >= 0 { a as int } else { -(a as int) },
        r <= MAX_RAW as u64,
{
    if a >= 0 {
        a as u64
    } else {
        (-a) as u64
    }
}

/// Saturating fixed-point multiplication of two in-range scalars.
pub fn mul_f(a: i64, b: i64) -> (r: i64)
    requires
        in_range(a as int),
        in_range(b as int),
    ensures
        r == fmul(a as int, b as int),
        in_range(r as int),
{
    let ma = mag(a) as u128;
    let mb = mag(b) as u128;
    proof {
        assert(ma * mb <= (MAX_RAW as int) * (MAX_RAW as int)) by (nonlinear_arith)
            requires
                ma <= MAX_RAW as int,
                mb <= MAX_RAW as int,
        ;
    }
    let m = ma * mb / (UNIT as u128);
    proof {
        assert(m == (ma as int) * (mb as int) / (UNIT as int) && m <= (MAX_RAW as int) * (
        MAX_RAW as int) / (UNIT as int)) by (nonlinear_arith)
            requires
                m == ((ma * mb) as u128 as int) / (UNIT as u128 as int),
                (ma as int) * (mb as int) == (ma * mb) as u128 as int,
                ma * mb <= (MAX_RAW as int) * (MAX_RAW as int),
        ;
        assert((a as int) * (b as int) == if (a < 0) == (b < 0) {
            (ma as int) * (mb as int)
        } else {
            -((ma as int) * (mb as int))
        }) by (nonlinear_arith)
            requires
                ma == if a >= 0 { a as int } else { -(a as int) },
                mb == if b >= 0 { b as int } else { -(b as int) },
        ;
    }
    let mi = m as i64;
    if (a < 0) == (b < 0) {
        clamp_f(mi)
    } else {
        clamp_f(-mi)
    }
}

/// Distance between two scalars.
pub open spec fn fdist(a: int, b: int) -> int {
    if a >= b {
        a - b
    } else {
        b - a
    }
}

/// Scaling a nonnegative `n` by `t/u` with `0 <= t <= u` keeps the result
/// between `0` and `n`; scaling by exactly `u/u` is the identity, and the
/// result only truncates to zero when the product is below one unit.
proof fn lemma_scale_nonneg(n: int, t: int, u: int)
    requires
        n >= 0,
        0 <= t <= u,
        u > 0,
    ensures
        0 <= n * t / u <= n,
        t == u ==> n * t / u == n,
        t == 0 ==> n * t / u == 0,
        n * t >= u ==> n * t / u >= 1,
{
    lemma_div_pos_is_pos(n * t, u);
    lemma_mul_inequality(t, u, n);
    lemma_div_is_ordered(n * t, n * u, u);
    lemma_div_multiples_vanish(n, u);
    assert(u * n == n * u);
    if t == 0 {
        lemma_div_of0(u);
    }
    if n * t >= u {
        lemma_div_is_ordered(u, n * t, u);
        lemma_div_by_self(u);
    }
}

/// Linear interpolation moves from `a` toward `b` without overshooting: the
/// result stays between the endpoints, the distance to `b` never grows,
/// `t == UNIT` lands on `b` exactly, and the distance strictly shrinks as
/// long as it is at least one unit divided by `t`.
pub proof fn lemma_lerp(a: int, b: int, t: int)
    requires
        0 <= t <= UNIT as int,
    ensures
        a <= b ==> a <= flerp(a, b, t) <= b,
        b <= a ==> b <= flerp(a, b, t) <= a,
        fdist(flerp(a, b, t), b) <= fdist(a, b),
        t == UNIT as int ==> flerp(a, b, t) == b,
        t == 0 ==> flerp(a, b, t) == a,
        fdist(a, b) * t >= UNIT as int ==> fdist(flerp(a, b, t), b) < fdist(a, b),
{
    let u = UNIT as int;
    if b >= a {
        let d = b - a;
        lemma_scale_nonneg(d, t, u);
        assert(d * t >= 0) by (nonlinear_arith)
            requires
                d >= 0,
                t >= 0,
        ;
        assert(flerp(a, b, t) == a + d * t / u);
    } else {
        let d = a - b;
        lemma_scale_nonneg(d, t, u);
        assert(d * t >= 0) by (nonlinear_arith)
            requires
                d >= 0,
                t >= 0,
        ;
        assert((b - a) * t == -(d * t)) by (nonlinear_arith)
            requires
                d == a - b,
        ;
        if d * t == 0 {
            lemma_div_of0(u);
            assert(flerp(a, b, t) == a);
        } else {
            assert(flerp(a, b, t) == a - d * t / u);
        }
    }
}

/// Linear interpolation of in-range scalars (`0 <= t <= UNIT`).
pub fn lerp_f(a: i64, b: i64, t: i64) -> (r: i64)
    requires
        in_range(a as int),
        in_range(b as int),
        0 <= t <= UNIT,
    ensures
        r == flerp(a as int, b as int, t as int),
        in_range(r as int),
{
    proof {
        lemma_lerp(a as int, b as int, t as int);
    }
    let d = b - a;
    let md = mag_wide(d) as u128;
    proof {
        assert(md * (t as u128) <= 2 * (MAX_RAW as int) * (UNIT as int) && (md as int) * (
        t as int) / (UNIT as int) <= md) by (nonlinear_arith)
            requires
                md <= 2 * (MAX_RAW as int),
                0 <= t <= UNIT,
        ;
    }
    let q = md * (t as u128) / (UNIT as u128);
    proof {
        assert((d as int) * (t as int) == if d >= 0 {
            (md as int) * (t as int)
        } else {
            -((md as int) * (t as int))
        }) by (nonlinear_arith)
            requires
                md == if d >= 0 { d as int } else { -(d as int) },
        ;
    }
    let qi = q as i64;
    if d >= 0 {
        a + qi
    } else {
        a - qi
    }
}

/// Magnitude of a difference of two in-range scalars.
fn mag_wide(a: i64) -> (r: u64)
    requires
        -2 * (MAX_RAW as int) <= a as int <= 2 * (MAX_RAW as int),
    ensures
        r == if a >= 0 { a as int } else { -(a as int) },
        r <= 2 * (MAX_RAW as u64),
{
    if a >= 0 {
        a as u64
    } else {
        (-a) as u64
    }
}

/// Saturating fixed-point quotient by a positive raw divisor.
pub open spec fn fdivs(a: int, d: int) -> int {
    clamped(tdiv(a * UNIT as int, d))
}

/// Fixed-point division of an in-range scalar by a positive raw scalar.
pub fn div_f(a: i64, d: i64) -> (r: i64)
    requires
        in_range(a as int),
        0 < d,
    ensures
        r == fdivs(a as int, d as int),
        in_range(r as int),
{
    let ma = mag(a) as u128;
    let n = ma * (UNIT as u128);
    proof {
        assert(ma * (UNIT as int) <= (MAX_RAW as int) * (UNIT as int)) by (nonlinear_arith)
            requires
                ma <= MAX_RAW as int,
        ;
    }
    let q = n / (d as u128);
    proof {
        lemma_div_pos_is_pos(n as int, d as int);
        lemma_div_is_ordered(n as int, (MAX_RAW as int) * (UNIT as int), d as int);
        lemma_div_is_ordered_by_one(n as int, d as int);
        assert((a as int) * (UNIT as int) == if a >= 0 {
            (ma as int) * (UNIT as int)
        } else {
            -((ma as int) * (UNIT as int))
        }) by (nonlinear_arith)
            requires
                ma == if a >= 0 { a as int } else { -(a as int) },
        ;
    }
    let qi = q as i64;
    if a >= 0 {
        clamp_f(qi)
    } else {
        clamp_f(-qi)
    }
}

/// A quotient by a positive divisor is at most the dividend.
proof fn lemma_div_is_ordered_by_one(n: int, d: int)
    requires
        n >= 0,
        d >= 1,
    ensures
        n / d <= n,
{
    lemma_div_multiples_vanish(n, d);
    lemma_mul_inequality(1, d, n);
    assert(n * 1 == n && d * n == n * d) by (nonlinear_arith);
    lemma_div_is_ordered(n, n * d, d);
}

/// Guard a value that must be nonnegative (a smoothness, an elapsed time)
/// into `[0, MAX_RAW]`.
pub open spec fn clamp_nonneg(x: int) -> int {
    if x < 0 {
        0
    } else if x > MAX_RAW as int {
        MAX_RAW as int
    } else {
        x
    }
}

pub fn clamp_nonneg_f(x: i64) -> (r: i64)
    ensures
        r == clamp_nonneg(x as int),
        0 <= r <= MAX_RAW,
{
    if x < 0 {
        0
    } else if x > MAX_RAW {
        MAX_RAW
    } else {
        x
    }
}

/// Clamping commutes with negation (the range is symmetric).
pub proof fn lemma_clamped_neg(x: int)
    ensures
        clamped(-x) == -clamped(x),
{
}

/// Truncating division is odd in the dividend.
pub proof fn lemma_tdiv_neg(n: int, d: int)
    requires
        d > 0,
    ensures
        tdiv(-n, d) == -tdiv(n, d),
{
}

/// The saturating product is odd in each factor.
pub proof fn lemma_fmul_neg(a: int, b: int)
    ensures
        fmul(-a, b) == -fmul(a, b),
        fmul(a, -b) == -fmul(a, b),
        fmul(-a, -b) == fmul(a, b),
{
    assert((-a) * b == -(a * b) && a * (-b) == -(a * b) && (-a) * (-b) == a * b)
        by (nonlinear_arith);
    lemma_tdiv_neg(a * b, UNIT as int);
    lemma_clamped_neg(tdiv(a * b, UNIT as int));
}

/// When the dividend is at most `k` times the divisor, the fixed-point
/// quotient is at most `k` whole units and the saturation never engages.
pub proof fn lemma_fdivs_scaled(a: int, d: int, k: int)
    requires
        d > 0,
        0 <= k <= 1000,
        -(k * d) <= a <= k * d,
    ensures
        -(k * (UNIT as int)) <= fdivs(a, d) <= k * (UNIT as int),
        fdivs(a, d) == tdiv(a * (UNIT as int), d),
{
    let u = UNIT as int;
    if a >= 0 {
        assert(a * u <= (k * u) * d) by (nonlinear_arith)
            requires
                0 <= a <= k * d,
                u > 0,
        ;
        lemma_div_pos_is_pos(a * u, d);
        lemma_div_is_ordered(a * u, (k * u) * d, d);
        lemma_div_multiples_vanish(k * u, d);
        assert(d * (k * u) == (k * u) * d) by (nonlinear_arith);
    } else {
        let b = -a;
        assert(b * u <= (k * u) * d) by (nonlinear_arith)
            requires
                0 <= b <= k * d,
                u > 0,
        ;
        lemma_div_pos_is_pos(b * u, d);
        lemma_div_is_ordered(b * u, (k * u) * d, d);
        lemma_div_multiples_vanish(k * u, d);
        assert(d * (k * u) == (k * u) * d) by (nonlinear_arith);
        assert(a * u == -(b * u)) by (nonlinear_arith)
            requires
                b == -a,
        ;
    }
    assert(k * u <= MAX_RAW as int) by (nonlinear_arith)
        requires
            0 <= k <= 1000,
            u == UNIT as int,
    ;
}

/// Euclidean remainder of an in-range scalar by a positive modulus.
pub fn emod_f(a: i64, m: i64) -> (r: i64)
    requires
        in_range(a as int),
        0 < m <= MAX_RAW,
    ensures
        r == (a as int) % (m as int),
        0 <= r < m,
{
    if a >= 0 {
        let r = ((a as u64) % (m as u64)) as i64;
        proof {
            vstd::arithmetic::div_mod::lemma_fundamental_div_mod(a as u64 as int, m as u64 as int);
            vstd::arithmetic::div_mod::lemma_fundamental_div_mod_converse(
                a as int,
                m as int,
                (a as u64 as int) / (m as u64 as int),
                r as int,
            );
        }
        r
    } else {
        let k = ((-a) as u64) % (m as u64);
        proof {
            vstd::arithmetic::div_mod::lemma_fundamental_div_mod((-a) as u64 as int, m as u64 as int);
        }
        let ghost q = ((-a) as u64 as int) / (m as u64 as int);
        if k == 0 {
            proof {
                assert(a as int == (-q) * (m as int) + 0) by (nonlinear_arith)
                    requires
                        -(a as int) == (m as int) * q,
                ;
                vstd::arithmetic::div_mod::lemma_fundamental_div_mod_converse(
                    a as int,
                    m as int,
                    -q,
                    0,
                );
            }
            0
        } else {
            let r = m - (k as i64);
            proof {
                assert(a as int == (-q - 1) * (m as int) + (r as int)) by (nonlinear_arith)
                    requires
                        -(a as int) == (m as int) * q + (k as int),
                        r as int == m as int - k as int,
                ;
                vstd::arithmetic::div_mod::lemma_fundamental_div_mod_converse(
                    a as int,
                    m as int,
                    -q - 1,
                    r as int,
                );
            }
            r
        }
    }
}

/// Floor of the integer square root.
pub open spec fn sqrt_floor(n: int) -> int
    decreases n,
{
    if n <= 0 {
        0
    } else {
        let r = sqrt_floor(n - 1);
        if (r + 1) * (r + 1) <= n {
            r + 1
        } else {
            r
        }
    }
}

/// `sqrt_floor(n)` really is the floor of the square root of `n`.
pub proof fn lemma_sqrt_floor(n: int)
    requires
        n >= 0,
    ensures
        sqrt_floor(n) >= 0,
        sqrt_floor(n) * sqrt_floor(n) <= n,
        n < (sqrt_floor(n) + 1) * (sqrt_floor(n) + 1),
    decreases n,
{
    if n > 0 {
        lemma_sqrt_floor(n - 1);
        let r = sqrt_floor(n - 1);
        assert((r + 2) * (r + 2) >= (r + 1) * (r + 1) + 1) by (nonlinear_arith)
            requires
                r >= 0,
        ;
    }
}

/// The square-root bounds pin the root down uniquely.
pub proof fn lemma_sqrt_floor_unique(n: int, r: int)
    requires
        n >= 0,
        r >= 0,
        r * r <= n,
        n < (r + 1) * (r + 1),
    ensures
        r == sqrt_floor(n),
{
    lemma_sqrt_floor(n);
    let s = sqrt_floor(n);
    if r < s {
        assert((r + 1) * (r + 1) <= s * s) by (nonlinear_arith)
            requires
                0 <= r + 1 <= s,
        ;
    }
    if s < r {
        assert((s + 1) * (s + 1) <= r * r) by (nonlinear_arith)
            requires
                0 <= s + 1 <= r,
        ;
    }
}

/// Floor of the square root, for inputs bounded by the squared coordinate
/// range (enough for sums of a few squared scalars).
pub fn isqrt(n: u128) -> (r: u64)
    requires
        n <= 16 * (MAX_RAW as int) * (MAX_RAW as int),
    ensures
        (r as int) * (r as int) <= n < (r as int + 1) * (r as int + 1),
        r <= 4 * (MAX_RAW as u64),
        r == sqrt_floor(n as int),
{
    proof {
        lemma_sqrt_floor(n as int);
    }
    let mut lo: u64 = 0;
    let mut hi: u64 = 4 * (MAX_RAW as u64) + 1;
    proof {
        assert((hi as int) * (hi as int) > 16 * (MAX_RAW as int) * (MAX_RAW as int))
            by (nonlinear_arith)
            requires
                hi == 4 * (MAX_RAW as int) + 1,
        ;
    }
    while lo + 1 < hi
        invariant
            lo < hi,
            hi <= 4 * (MAX_RAW as u64) + 1,
            (lo as int) * (lo as int) <= n,
            (hi as int) * (hi as int) > n,
        decreases hi - lo,
    {
        let mid = lo + (hi - lo) / 2;
        proof {
            assert((mid as int) * (mid as int) <= 16_000_000_000_008_000_000_000_001)
                by (nonlinear_arith)
                requires
                    0 <= mid as int <= 4_000_000_000_001,
            ;
        }
        let sq = (mid as u128) * (mid as u128);
        if sq <= n {
            lo = mid;
        } else {
            hi = mid;
        }
    }
    proof {
        lemma_sqrt_floor_unique(n as int, lo as int);
    }
    lo
}

} // verus!
