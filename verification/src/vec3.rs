//! Three-component fixed-point vectors.

use vstd::prelude::*;
use crate::fixed::{
    in_range, clamped, fadd, fsub, fmul, flerp, fdist, fdivs, sqrt_floor, UNIT, MAX_RAW,
    clamp_f, add_f, sub_f, mul_f, lerp_f, div_f, isqrt, lemma_sqrt_floor, lemma_fdivs_scaled,
};

verus! {

/// Mathematical model of a vector: unbounded integer coordinates.
pub ghost struct V3 {
    pub x: int,
    pub y: int,
    pub z: int,
}

impl V3 {
    /// All three coordinates are representable scalars.
    pub open spec fn wf(self) -> bool {
        in_range(self.x) && in_range(self.y) && in_range(self.z)
    }

    pub open spec fn zero() -> V3 {
        V3 { x: 0, y: 0, z: 0 }
    }

    /// Componentwise saturating sum.
    pub open spec fn add(self, o: V3) -> V3 {
        V3 { x: fadd(self.x, o.x), y: fadd(self.y, o.y), z: fadd(self.z, o.z) }
    }

    /// Componentwise saturating difference.
    pub open spec fn sub(self, o: V3) -> V3 {
        V3 { x: fsub(self.x, o.x), y: fsub(self.y, o.y), z: fsub(self.z, o.z) }
    }

    pub open spec fn neg(self) -> V3 {
        V3 { x: -self.x, y: -self.y, z: -self.z }
    }

    /// Scale every coordinate by a fixed-point factor.
    pub open spec fn scale(self, s: int) -> V3 {
        V3 { x: fmul(self.x, s), y: fmul(self.y, s), z: fmul(self.z, s) }
    }

    /// Componentwise linear interpolation toward `o` by `t`.
    pub open spec fn lerp(self, o: V3, t: int) -> V3 {
        V3 { x: flerp(self.x, o.x, t), y: flerp(self.y, o.y, t), z: flerp(self.z, o.z, t) }
    }

    /// Exact sum of squared coordinates (raw scale squared).
    pub open spec fn norm_sq(self) -> int {
        self.x * self.x + self.y * self.y + self.z * self.z
    }

    /// Cross product, saturating componentwise.
    pub open spec fn cross(self, o: V3) -> V3 {
        V3 {
            x: fsub(fmul(self.y, o.z), fmul(self.z, o.y)),
            y: fsub(fmul(self.z, o.x), fmul(self.x, o.z)),
            z: fsub(fmul(self.x, o.y), fmul(self.y, o.x)),
        }
    }

    /// Scale to unit length (the zero vector stays zero).
    pub open spec fn normalize(self) -> V3 {
        let n = sqrt_floor(self.norm_sq());
        if n == 0 {
            V3::zero()
        } else {
            V3 { x: fdivs(self.x, n), y: fdivs(self.y, n), z: fdivs(self.z, n) }
        }
    }

    /// Largest componentwise distance to another vector.
    pub open spec fn dist(self, o: V3) -> int {
        let dx = fdist(self.x, o.x);
        let dy = fdist(self.y, o.y);
        let dz = fdist(self.z, o.z);
        if dx >= dy && dx >= dz {
            dx
        } else if dy >= dz {
            dy
        } else {
            dz
        }
    }
}

/// Every coordinate is at most one whole unit in magnitude.
pub open spec fn unit_bounded(v: V3) -> bool {
    -(UNIT as int) <= v.x <= UNIT as int && -(UNIT as int) <= v.y <= UNIT as int && -(
    UNIT as int) <= v.z <= UNIT as int
}

/// The square of a scalar equals the square of its magnitude.
proof fn lemma_sq_mag(c: int, m: int)
    requires
        m == if c >= 0 { c } else { -c },
    ensures
        c * c == m * m,
        m * m >= 0,
{
    assert(c * c == m * m && m * m >= 0) by (nonlinear_arith)
        requires
            m == if c >= 0 { c } else { -c },
    ;
}

/// A normalized vector is well-formed and its coordinates are at most one
/// whole unit.
pub proof fn lemma_normalize_wf(v: V3)
    requires
        v.wf(),
    ensures
        v.normalize().wf(),
        unit_bounded(v.normalize()),
{
    let ns = v.norm_sq();
    assert(v.x * v.x >= 0 && v.y * v.y >= 0 && v.z * v.z >= 0) by (nonlinear_arith);
    lemma_sqrt_floor(ns);
    let n = sqrt_floor(ns);
    if n != 0 {
        assert(-n <= v.x <= n && -n <= v.y <= n && -n <= v.z <= n) by (nonlinear_arith)
            requires
                v.x * v.x <= ns,
                v.y * v.y <= ns,
                v.z * v.z <= ns,
                ns < (n + 1) * (n + 1),
                n >= 1,
        ;
        lemma_fdivs_scaled(v.x, n, 1);
        lemma_fdivs_scaled(v.y, n, 1);
        lemma_fdivs_scaled(v.z, n, 1);
    }
}

/// A vector of three fixed-point scalars, each within `[-MAX_RAW, MAX_RAW]`.
#[derive(Clone, Copy, Debug, PartialEq, Eq, Structural)]
pub struct Vec3 {
    pub x: i64,
    pub y: i64,
    pub z: i64,
}

impl View for Vec3 {
    type V = V3;

    open spec fn view(&self) -> V3 {
        V3 { x: self.x as int, y: self.y as int, z: self.z as int }
    }
}

impl Vec3 {
    /// Build a vector, clamping each raw coordinate into range.
    pub fn new(x: i64, y: i64, z: i64) -> (r: Vec3)
        ensures
            r@ == (V3 { x: clamped(x as int), y: clamped(y as int), z: clamped(z as int) }),
            r@.wf(),
    {
        Vec3 { x: clamp_f(x), y: clamp_f(y), z: clamp_f(z) }
    }

    pub fn zero() -> (r: Vec3)
        ensures
            r@ == V3::zero(),
            r@.wf(),
    {
        Vec3 { x: 0, y: 0, z: 0 }
    }

    pub fn add(&self, o: &Vec3) -> (r: Vec3)
        requires
            self@.wf(),
            o@.wf(),
        ensures
            r@ == self@.add(o@),
            r@.wf(),
    {
        Vec3 { x: add_f(self.x, o.x), y: add_f(self.y, o.y), z: add_f(self.z, o.z) }
    }

    pub fn sub(&self, o: &Vec3) -> (r: Vec3)
        requires
            self@.wf(),
            o@.wf(),
        ensures
            r@ == self@.sub(o@),
            r@.wf(),
    {
        Vec3 { x: sub_f(self.x, o.x), y: sub_f(self.y, o.y), z: sub_f(self.z, o.z) }
    }

    pub fn neg(&self) -> (r: Vec3)
        requires
            self@.wf(),
        ensures
            r@ == self@.neg(),
            r@.wf(),
    {
        Vec3 { x: -self.x, y: -self.y, z: -self.z }
    }

    pub fn scale(&self, s: i64) -> (r: Vec3)
        requires
            self@.wf(),
            in_range(s as int),
        ensures
            r@ == self@.scale(s as int),
            r@.wf(),
    {
        Vec3 { x: mul_f(self.x, s), y: mul_f(self.y, s), z: mul_f(self.z, s) }
    }

    pub fn cross(&self, o: &Vec3) -> (r: Vec3)
        requires
            self@.wf(),
            o@.wf(),
        ensures
            r@ == self@.cross(o@),
            r@.wf(),
    {
        Vec3 {
            x: sub_f(mul_f(self.y, o.z), mul_f(self.z, o.y)),
            y: sub_f(mul_f(self.z, o.x), mul_f(self.x, o.z)),
            z: sub_f(mul_f(self.x, o.y), mul_f(self.y, o.x)),
        }
    }

    /// Length of the vector in raw scale (the floor square root of the exact
    /// sum of squares).
    pub fn norm_raw(&self) -> (r: u64)
        requires
            self@.wf(),
        ensures
            r == sqrt_floor(self@.norm_sq()),
            (r as int) * (r as int) <= self@.norm_sq() < (r as int + 1) * (r as int + 1),
            r <= 4 * (MAX_RAW as u64),
    {
        let mx = crate::fixed::mag(self.x) as u128;
        let my = crate::fixed::mag(self.y) as u128;
        let mz = crate::fixed::mag(self.z) as u128;
        proof {
            lemma_sq_mag(self@.x, mx as int);
            lemma_sq_mag(self@.y, my as int);
            lemma_sq_mag(self@.z, mz as int);
            assert(mx * mx <= (MAX_RAW as int) * (MAX_RAW as int) && my * my <= (MAX_RAW as int)
                * (MAX_RAW as int) && mz * mz <= (MAX_RAW as int) * (MAX_RAW as int))
                by (nonlinear_arith)
                requires
                    0 <= mx <= MAX_RAW as int,
                    0 <= my <= MAX_RAW as int,
                    0 <= mz <= MAX_RAW as int,
            ;
        }
        let ns = mx * mx + my * my + mz * mz;
        isqrt(ns)
    }

    /// Scale the vector to unit length; a vector of zero raw length is left
    /// as zero.
    pub fn normalize(&self) -> (r: Vec3)
        requires
            self@.wf(),
        ensures
            r@ == self@.normalize(),
            r@.wf(),
            unit_bounded(r@),
    {
        proof {
            lemma_normalize_wf(self@);
        }
        let n = self.norm_raw();
        if n == 0 {
            Vec3 { x: 0, y: 0, z: 0 }
        } else {
            Vec3 {
                x: div_f(self.x, n as i64),
                y: div_f(self.y, n as i64),
                z: div_f(self.z, n as i64),
            }
        }
    }

    /// Linear interpolation toward `o` by `t`, with `0 <= t <= UNIT`.
    pub fn lerp(&self, o: &Vec3, t: i64) -> (r: Vec3)
        requires
            self@.wf(),
            o@.wf(),
            0 <= t <= UNIT,
        ensures
            r@ == self@.lerp(o@, t as int),
            r@.wf(),
    {
        proof {
            crate::fixed::lemma_lerp(self@.x, o@.x, t as int);
            crate::fixed::lemma_lerp(self@.y, o@.y, t as int);
            crate::fixed::lemma_lerp(self@.z, o@.z, t as int);
        }
        Vec3 { x: lerp_f(self.x, o.x, t), y: lerp_f(self.y, o.y, t), z: lerp_f(self.z, o.z, t) }
    }
}

} // verus!
