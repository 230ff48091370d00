//! Fixed-point quaternions.
//!
//! A rotation is stored as four fixed-point components; a unit rotation has
//! components of at most one whole unit, and every stored rotation is kept
//! within twice that bound. Rotations are built from yaw/pitch angles or from
//! an orthonormal basis, interpolated by normalized linear interpolation, and
//! re-normalized whenever error could accumulate.

use vstd::prelude::*;
use crate::fixed::{
    fadd, fmul, flerp, fdivs, sqrt_floor, tdiv, UNIT, mul_f, lerp_f, div_f, isqrt,
    lemma_sqrt_floor, lemma_fdivs_scaled, lemma_lerp,
};
use crate::vec3::{V3, Vec3, unit_bounded};
use crate::trig::{sin_ud, cos_ud, sin_ud_f, cos_ud_f, DEG_90, ANG_MAX};

verus! {

/// Largest magnitude a stored rotation component may take (two whole units).
pub const QMAX: i64 = 2_000_000;

/// Below this squared raw length a rotation or direction is degenerate.
pub const MIN_NORM_SQ: i64 = 1_000_000;

/// Mathematical model of a quaternion: unbounded integer components.
pub ghost struct Q4 {
    pub x: int,
    pub y: int,
    pub z: int,
    pub w: int,
}

/// A component within the stored-rotation bound.
pub open spec fn q_in_range(c: int) -> bool {
    -(QMAX as int) <= c <= QMAX as int
}

impl Q4 {
    /// All four components are within the stored-rotation bound.
    pub open spec fn wf(self) -> bool {
        q_in_range(self.x) && q_in_range(self.y) && q_in_range(self.z) && q_in_range(self.w)
    }

    /// The identity rotation.
    pub open spec fn identity() -> Q4 {
        Q4 { x: 0, y: 0, z: 0, w: UNIT as int }
    }

    pub open spec fn neg(self) -> Q4 {
        Q4 { x: -self.x, y: -self.y, z: -self.z, w: -self.w }
    }

    /// The vector part.
    pub open spec fn vpart(self) -> V3 {
        V3 { x: self.x, y: self.y, z: self.z }
    }

    /// Exact four-component dot product.
    pub open spec fn dot(self, o: Q4) -> int {
        self.x * o.x + self.y * o.y + self.z * o.z + self.w * o.w
    }

    /// Exact sum of squared components (raw scale squared).
    pub open spec fn norm_sq(self) -> int {
        self.dot(self)
    }

    /// Rotate a vector: `v + w*t + u x t` with `t = 2 (u x v)`, where `u` is
    /// the vector part.
    pub open spec fn rotate(self, v: V3) -> V3 {
        let c = self.vpart().cross(v);
        let t = V3 { x: fadd(c.x, c.x), y: fadd(c.y, c.y), z: fadd(c.z, c.z) };
        v.add(t.scale(self.w)).add(self.vpart().cross(t))
    }

    /// Scale to unit length; a degenerate rotation collapses to the identity.
    pub open spec fn normalize(self) -> Q4 {
        let ns = self.norm_sq();
        if ns < MIN_NORM_SQ as int {
            Q4::identity()
        } else {
            let n = sqrt_floor(ns);
            Q4 {
                x: fdivs(self.x, n),
                y: fdivs(self.y, n),
                z: fdivs(self.z, n),
                w: fdivs(self.w, n),
            }
        }
    }

    /// Normalized linear interpolation toward `o` by `t`, negating `o` first
    /// when the two rotations sit on opposite sides of the double cover.
    pub open spec fn nlerp(self, o: Q4, t: int) -> Q4 {
        let o2 = if self.dot(o) < 0 {
            o.neg()
        } else {
            o
        };
        let l = Q4 {
            x: flerp(self.x, o2.x, t),
            y: flerp(self.y, o2.y, t),
            z: flerp(self.z, o2.z, t),
            w: flerp(self.w, o2.w, t),
        };
        l.normalize()
    }
}

/// The rotation for yaw then pitch (intrinsic Y-then-X Euler angles, no
/// roll), both in micro-degrees: the product of a yaw rotation about the Y
/// axis and a pitch rotation about the X axis, written out componentwise
/// over the half-angle sines and cosines.
pub open spec fn quat_of_yaw_pitch(yaw: int, pitch: int) -> Q4 {
    let hy = tdiv(yaw, 2);
    let hp = tdiv(pitch, 2);
    let sy = sin_ud(hy);
    let cy = cos_ud(hy);
    let sp = sin_ud(hp);
    let cp = cos_ud(hp);
    Q4 { x: fmul(cy, sp), y: fmul(sy, cp), z: -fmul(sy, sp), w: fmul(cy, cp) }
}

/// The yaw/pitch rotation is well-formed and unit-bounded for any angles.
pub proof fn lemma_quat_of_yaw_pitch_wf(yaw: int, pitch: int)
    ensures
        quat_of_yaw_pitch(yaw, pitch).wf(),
        q_unit_bounded(quat_of_yaw_pitch(yaw, pitch)),
{
    let hy = tdiv(yaw, 2);
    let hp = tdiv(pitch, 2);
    crate::trig::lemma_sin_ud_bounds(hy);
    crate::trig::lemma_sin_ud_bounds(hy + DEG_90 as int);
    crate::trig::lemma_sin_ud_bounds(hp);
    crate::trig::lemma_sin_ud_bounds(hp + DEG_90 as int);
    lemma_fmul_unit(cos_ud(hy), sin_ud(hp));
    lemma_fmul_unit(sin_ud(hy), cos_ud(hp));
    lemma_fmul_unit(sin_ud(hy), sin_ud(hp));
    lemma_fmul_unit(cos_ud(hy), cos_ud(hp));
}

/// Every component within the widest bound arising in intermediate
/// rotation arithmetic (eight whole units).
pub open spec fn q_calc_bounded(q: Q4) -> bool {
    -8_000_000 <= q.x <= 8_000_000 && -8_000_000 <= q.y <= 8_000_000 && -8_000_000 <= q.z
        <= 8_000_000 && -8_000_000 <= q.w <= 8_000_000
}

/// Every component within one unit.
pub open spec fn q_unit_bounded(q: Q4) -> bool {
    -(UNIT as int) <= q.x <= UNIT as int && -(UNIT as int) <= q.y <= UNIT as int && -(
    UNIT as int) <= q.z <= UNIT as int && -(UNIT as int) <= q.w <= UNIT as int
}

/// A quaternion of fixed-point components, each within `[-QMAX, QMAX]`.
#[derive(Clone, Copy, Debug, PartialEq, Eq, Structural)]
pub struct Quat {
    pub x: i64,
    pub y: i64,
    pub z: i64,
    pub w: i64,
}

impl View for Quat {
    type V = Q4;

    open spec fn view(&self) -> Q4 {
        Q4 { x: self.x as int, y: self.y as int, z: self.z as int, w: self.w as int }
    }
}

/// Clamp a raw component into the stored-rotation bound.
pub open spec fn q_clamped(c: int) -> int {
    if c > QMAX as int {
        QMAX as int
    } else if c < -(QMAX as int) {
        -(QMAX as int)
    } else {
        c
    }
}

fn clamp_q(c: i64) -> (r: i64)
    ensures
        r == q_clamped(c as int),
        q_in_range(r as int),
{
    if c > QMAX {
        QMAX
    } else if c < -QMAX {
        -QMAX
    } else {
        c
    }
}

impl Quat {
    /// Build a quaternion from raw components, clamping each into the
    /// stored-rotation bound.
    pub fn new(x: i64, y: i64, z: i64, w: i64) -> (r: Quat)
        ensures
            r@ == (Q4 {
                x: q_clamped(x as int),
                y: q_clamped(y as int),
                z: q_clamped(z as int),
                w: q_clamped(w as int),
            }),
            r@.wf(),
    {
        Quat { x: clamp_q(x), y: clamp_q(y), z: clamp_q(z), w: clamp_q(w) }
    }

    pub fn identity() -> (r: Quat)
        ensures
            r@ == Q4::identity(),
            r@.wf(),
    {
        Quat { x: 0, y: 0, z: 0, w: UNIT }
    }

    pub fn neg(&self) -> (r: Quat)
        requires
            self@.wf(),
        ensures
            r@ == self@.neg(),
            r@.wf(),
    {
        Quat { x: -self.x, y: -self.y, z: -self.z, w: -self.w }
    }

    /// Exact dot product of two stored rotations.
    pub fn dot(&self, o: &Quat) -> (r: i64)
        requires
            self@.wf(),
            o@.wf(),
        ensures
            r == self@.dot(o@),
    {
        proof {
            lemma_q_prod_bound(self@.x, o@.x);
            lemma_q_prod_bound(self@.y, o@.y);
            lemma_q_prod_bound(self@.z, o@.z);
            lemma_q_prod_bound(self@.w, o@.w);
        }
        self.x * o.x + self.y * o.y + self.z * o.z + self.w * o.w
    }

    /// Rotate a vector by this rotation.
    pub fn rotate(&self, v: &Vec3) -> (r: Vec3)
        requires
            self@.wf(),
            v@.wf(),
        ensures
            r@ == self@.rotate(v@),
            r@.wf(),
    {
        let u = Vec3 { x: self.x, y: self.y, z: self.z };
        let c = u.cross(v);
        let t = c.add(&c);
        v.add(&t.scale(self.w)).add(&u.cross(&t))
    }

    /// The rotation for yaw then pitch, both in micro-degrees.
    pub fn from_yaw_pitch(yaw: i64, pitch: i64) -> (r: Quat)
        requires
            -ANG_MAX <= yaw <= ANG_MAX,
            -ANG_MAX <= pitch <= ANG_MAX,
        ensures
            r@ == quat_of_yaw_pitch(yaw as int, pitch as int),
            r@.wf(),
            q_unit_bounded(r@),
    {
        let hy = half_f(yaw);
        let hp = half_f(pitch);
        let sy = sin_ud_f(hy);
        let cy = cos_ud_f(hy);
        let sp = sin_ud_f(hp);
        let cp = cos_ud_f(hp);
        proof {
            lemma_fmul_unit(sy as int, cp as int);
            lemma_fmul_unit(cy as int, sp as int);
            lemma_fmul_unit(sy as int, sp as int);
            lemma_fmul_unit(cy as int, cp as int);
        }
        Quat { x: mul_f(cy, sp), y: mul_f(sy, cp), z: -mul_f(sy, sp), w: mul_f(cy, cp) }
    }
}

impl Quat {
    /// Exact squared raw length.
    fn norm_sq_raw(&self) -> (r: i64)
        requires
            q_calc_bounded(self@),
        ensures
            r == self@.norm_sq(),
            r >= 0,
    {
        proof {
            lemma_qc_prod_bound(self@.x, self@.x);
            lemma_qc_prod_bound(self@.y, self@.y);
            lemma_qc_prod_bound(self@.z, self@.z);
            lemma_qc_prod_bound(self@.w, self@.w);
            lemma_q_sq_nonneg(self@);
        }
        self.x * self.x + self.y * self.y + self.z * self.z + self.w * self.w
    }

    /// Scale to unit length; a degenerate rotation becomes the identity.
    pub fn normalize(&self) -> (r: Quat)
        requires
            q_calc_bounded(self@),
        ensures
            r@ == self@.normalize(),
            r@.wf(),
            q_unit_bounded(r@),
    {
        proof {
            lemma_q_normalize_wf(self@);
        }
        let ns = self.norm_sq_raw();
        if ns < MIN_NORM_SQ {
            Quat::identity()
        } else {
            let n = isqrt(ns as u128);
            proof {
                crate::fixed::lemma_sqrt_floor_unique(ns as int, n as int);
                assert(n >= 1000) by (nonlinear_arith)
                    requires
                        ns >= 1_000_000,
                        (n as int) * (n as int) <= ns,
                        ns < (n as int + 1) * (n as int + 1),
                        n >= 0,
                ;
            }
            Quat {
                x: div_f(self.x, n as i64),
                y: div_f(self.y, n as i64),
                z: div_f(self.z, n as i64),
                w: div_f(self.w, n as i64),
            }
        }
    }

    /// Normalized linear interpolation toward `o` by `t` (`0 <= t <= UNIT`),
    /// taking the short way around the double cover.
    pub fn nlerp(&self, o: &Quat, t: i64) -> (r: Quat)
        requires
            self@.wf(),
            o@.wf(),
            0 <= t <= UNIT,
        ensures
            r@ == self@.nlerp(o@, t as int),
            r@.wf(),
            q_unit_bounded(r@),
    {
        let d = self.dot(o);
        let o2 = if d < 0 {
            o.neg()
        } else {
            *o
        };
        proof {
            lemma_lerp(self@.x, o2@.x, t as int);
            lemma_lerp(self@.y, o2@.y, t as int);
            lemma_lerp(self@.z, o2@.z, t as int);
            lemma_lerp(self@.w, o2@.w, t as int);
        }
        let l = Quat {
            x: lerp_f(self.x, o2.x, t),
            y: lerp_f(self.y, o2.y, t),
            z: lerp_f(self.z, o2.z, t),
            w: lerp_f(self.w, o2.w, t),
        };
        l.normalize()
    }
}

/// The squared length of a quaternion is a sum of squares, hence nonnegative,
/// and each square is at most the whole sum.
proof fn lemma_q_sq_nonneg(q: Q4)
    ensures
        q.x * q.x >= 0,
        q.y * q.y >= 0,
        q.z * q.z >= 0,
        q.w * q.w >= 0,
        q.norm_sq() >= 0,
{
    assert(q.x * q.x >= 0 && q.y * q.y >= 0 && q.z * q.z >= 0 && q.w * q.w >= 0)
        by (nonlinear_arith);
}

/// A normalized quaternion is well-formed and unit-bounded.
pub proof fn lemma_q_normalize_wf(q: Q4)
    ensures
        q.normalize().wf(),
        q_unit_bounded(q.normalize()),
{
    let ns = q.norm_sq();
    lemma_q_sq_nonneg(q);
    if ns >= MIN_NORM_SQ as int {
        lemma_sqrt_floor(ns);
        let n = sqrt_floor(ns);
        assert(n >= 1000) by (nonlinear_arith)
            requires
                ns >= 1_000_000,
                ns < (n + 1) * (n + 1),
                n >= 0,
        ;
        assert(-n <= q.x <= n && -n <= q.y <= n && -n <= q.z <= n && -n <= q.w <= n)
            by (nonlinear_arith)
            requires
                q.x * q.x <= ns,
                q.y * q.y <= ns,
                q.z * q.z <= ns,
                q.w * q.w <= ns,
                ns < (n + 1) * (n + 1),
                n >= 1,
        ;
        lemma_fdivs_scaled(q.x, n, 1);
        lemma_fdivs_scaled(q.y, n, 1);
        lemma_fdivs_scaled(q.z, n, 1);
        lemma_fdivs_scaled(q.w, n, 1);
    }
}

/// The quaternion of an orthonormal basis (columns `bx`, `by`, `bz` of the
/// rotation matrix), by the largest-component branch method. Entry `m_cr`
/// is row `r` of column `c`.
pub open spec fn quat_of_basis(bx: V3, by: V3, bz: V3) -> Q4 {
    let u = UNIT as int;
    let m00 = bx.x;
    let m01 = bx.y;
    let m02 = bx.z;
    let m10 = by.x;
    let m11 = by.y;
    let m12 = by.z;
    let m20 = bz.x;
    let m21 = bz.y;
    let m22 = bz.z;
    if m22 <= 0 {
        let dif10 = m11 - m00;
        let omm22 = u - m22;
        if dif10 <= 0 {
            let s2 = sqrt_floor((omm22 - dif10) * u);
            let s4 = 2 * s2;
            Q4 {
                x: s2 / 2,
                y: fdivs(m01 + m10, s4),
                z: fdivs(m02 + m20, s4),
                w: fdivs(m12 - m21, s4),
            }
        } else {
            let s2 = sqrt_floor((omm22 + dif10) * u);
            let s4 = 2 * s2;
            Q4 {
                x: fdivs(m01 + m10, s4),
                y: s2 / 2,
                z: fdivs(m12 + m21, s4),
                w: fdivs(m20 - m02, s4),
            }
        }
    } else {
        let sum10 = m11 + m00;
        let opm22 = u + m22;
        if sum10 <= 0 {
            let s2 = sqrt_floor((opm22 - sum10) * u);
            let s4 = 2 * s2;
            Q4 {
                x: fdivs(m02 + m20, s4),
                y: fdivs(m12 + m21, s4),
                z: s2 / 2,
                w: fdivs(m01 - m10, s4),
            }
        } else {
            let s2 = sqrt_floor((opm22 + sum10) * u);
            let s4 = 2 * s2;
            Q4 {
                x: fdivs(m12 - m21, s4),
                y: fdivs(m20 - m02, s4),
                z: fdivs(m01 - m10, s4),
                w: s2 / 2,
            }
        }
    }
}

/// Every coordinate of the matrix entries within the stored-rotation bound.
pub open spec fn basis_bounded(v: V3) -> bool {
    q_in_range(v.x) && q_in_range(v.y) && q_in_range(v.z)
}

/// The square root of `four * UNIT` for `UNIT <= four <= 7 * UNIT` lies
/// between one and three units.
proof fn lemma_branch_sqrt(four: int)
    requires
        UNIT as int <= four <= 7 * (UNIT as int),
    ensures
        UNIT as int <= sqrt_floor(four * (UNIT as int)) <= 2_645_751,
{
    let u = UNIT as int;
    assert(u * u <= four * u <= 7 * u * u) by (nonlinear_arith)
        requires
            u == UNIT as int,
            u <= four <= 7 * u,
    ;
    lemma_sqrt_floor(four * u);
    let s = sqrt_floor(four * u);
    assert(s <= 2_645_751) by (nonlinear_arith)
        requires
            s >= 0,
            s * s <= 7_000_000_000_000,
    ;
    assert(s >= 1_000_000) by (nonlinear_arith)
        requires
            s >= 0,
            1_000_000_000_000 < (s + 1) * (s + 1),
    ;
}

/// The basis-to-quaternion conversion yields a well-formed rotation whenever
/// the matrix entries are within the stored-rotation bound.
pub proof fn lemma_quat_of_basis_wf(bx: V3, by: V3, bz: V3)
    requires
        basis_bounded(bx),
        basis_bounded(by),
        basis_bounded(bz),
    ensures
        quat_of_basis(bx, by, bz).wf(),
{
    let u = UNIT as int;
    let m22 = bz.z;
    if m22 <= 0 {
        let dif10 = by.y - bx.x;
        let omm22 = u - m22;
        if dif10 <= 0 {
            lemma_branch_sqrt(omm22 - dif10);
            let s2 = sqrt_floor((omm22 - dif10) * u);
            lemma_fdivs_scaled(bx.y + by.x, 2 * s2, 2);
            lemma_fdivs_scaled(bx.z + bz.x, 2 * s2, 2);
            lemma_fdivs_scaled(by.z - bz.y, 2 * s2, 2);
        } else {
            lemma_branch_sqrt(omm22 + dif10);
            let s2 = sqrt_floor((omm22 + dif10) * u);
            lemma_fdivs_scaled(bx.y + by.x, 2 * s2, 2);
            lemma_fdivs_scaled(by.z + bz.y, 2 * s2, 2);
            lemma_fdivs_scaled(bz.x - bx.z, 2 * s2, 2);
        }
    } else {
        let sum10 = by.y + bx.x;
        let opm22 = u + m22;
        if sum10 <= 0 {
            lemma_branch_sqrt(opm22 - sum10);
            let s2 = sqrt_floor((opm22 - sum10) * u);
            lemma_fdivs_scaled(bx.z + bz.x, 2 * s2, 2);
            lemma_fdivs_scaled(by.z + bz.y, 2 * s2, 2);
            lemma_fdivs_scaled(bx.y - by.x, 2 * s2, 2);
        } else {
            lemma_branch_sqrt(opm22 + sum10);
            let s2 = sqrt_floor((opm22 + sum10) * u);
            lemma_fdivs_scaled(by.z - bz.y, 2 * s2, 2);
            lemma_fdivs_scaled(bz.x - bx.z, 2 * s2, 2);
            lemma_fdivs_scaled(bx.y - by.x, 2 * s2, 2);
        }
    }
}

/// The rotation that points the camera's forward axis (negative Z) along
/// `dir`, keeping world-up as the up reference. A degenerate direction (too
/// short, or parallel to world-up) falls back to the given rotation.
pub open spec fn look_at_rotation(dir: V3, fallback: Q4) -> Q4 {
    let up = V3 { x: 0, y: UNIT as int, z: 0 };
    if dir.norm_sq() < MIN_NORM_SQ as int {
        fallback
    } else {
        let f = dir.normalize();
        let sr = f.cross(up);
        if sr.norm_sq() < MIN_NORM_SQ as int {
            fallback
        } else {
            let s = sr.normalize();
            let u2 = s.cross(f);
            quat_of_basis(s, u2, f.neg())
        }
    }
}

/// The cross product of unit-bounded vectors stays within the
/// stored-rotation bound.
proof fn lemma_cross_bounded(a: V3, b: V3)
    requires
        unit_bounded(a),
        unit_bounded(b),
    ensures
        basis_bounded(a.cross(b)),
{
    lemma_fmul_unit(a.y, b.z);
    lemma_fmul_unit(a.z, b.y);
    lemma_fmul_unit(a.z, b.x);
    lemma_fmul_unit(a.x, b.z);
    lemma_fmul_unit(a.x, b.y);
    lemma_fmul_unit(a.y, b.x);
}

/// The look rotation is well-formed whenever the direction and the fallback
/// are.
pub proof fn lemma_look_at_rotation_wf(dir: V3, fallback: Q4)
    requires
        dir.wf(),
        fallback.wf(),
    ensures
        look_at_rotation(dir, fallback).wf(),
{
    let up = V3 { x: 0, y: UNIT as int, z: 0 };
    if dir.norm_sq() >= MIN_NORM_SQ as int {
        crate::vec3::lemma_normalize_wf(dir);
        let f = dir.normalize();
        let sr = f.cross(up);
        if sr.norm_sq() >= MIN_NORM_SQ as int {
            lemma_cross_bounded(f, up);
            crate::vec3::lemma_normalize_wf(sr);
            let s = sr.normalize();
            lemma_cross_bounded(s, f);
            lemma_quat_of_basis_wf(s, s.cross(f), f.neg());
        }
    }
}

impl Quat {
    /// The camera rotation that looks along `dir` with world-up as up
    /// reference; `fallback` is returned for a degenerate direction.
    pub fn look_at(dir: &Vec3, fallback: &Quat) -> (r: Quat)
        requires
            dir@.wf(),
            fallback@.wf(),
        ensures
            r@ == look_at_rotation(dir@, fallback@),
            r@.wf(),
    {
        proof {
            lemma_look_at_rotation_wf(dir@, fallback@);
        }
        let up = Vec3 { x: 0, y: UNIT, z: 0 };
        let nsd = dir.norm_raw();
        proof {
            lemma_norm_sq_small(dir@, nsd as int);
        }
        if nsd < 1000 {
            return *fallback;
        }
        let f = dir.normalize();
        let sr = f.cross(&up);
        let nss = sr.norm_raw();
        proof {
            lemma_norm_sq_small(sr@, nss as int);
        }
        if nss < 1000 {
            return *fallback;
        }
        let s = sr.normalize();
        let u2 = s.cross(&f);
        proof {
            crate::vec3::lemma_normalize_wf(dir@);
            crate::vec3::lemma_normalize_wf(sr@);
            lemma_cross_bounded(s@, f@);
        }
        quat_from_basis_f(&s, &u2, &f.neg())
    }
}

/// A squared length is below the degeneracy floor exactly when its root is
/// below one thousandth of a unit.
proof fn lemma_norm_sq_small(v: V3, n: int)
    requires
        n == sqrt_floor(v.norm_sq()),
        v.norm_sq() >= 0,
    ensures
        n < 1000 <==> v.norm_sq() < MIN_NORM_SQ as int,
{
    lemma_sqrt_floor(v.norm_sq());
    if n < 1000 {
        assert((n + 1) * (n + 1) <= 1_000_000) by (nonlinear_arith)
            requires
                0 <= n < 1000,
        ;
    } else {
        assert(n * n >= 1_000_000) by (nonlinear_arith)
            requires
                n >= 1000,
        ;
    }
}

/// Executable basis-to-quaternion conversion.
fn quat_from_basis_f(bx: &Vec3, by: &Vec3, bz0: &Vec3) -> (r: Quat)
    requires
        basis_bounded(bx@),
        basis_bounded(by@),
        basis_bounded(bz0@),
    ensures
        r@ == quat_of_basis(bx@, by@, bz0@),
        r@.wf(),
{
    proof {
        lemma_quat_of_basis_wf(bx@, by@, bz0@);
    }
    let m00 = bx.x;
    let m01 = bx.y;
    let m02 = bx.z;
    let m10 = by.x;
    let m11 = by.y;
    let m12 = by.z;
    let m20 = bz0.x;
    let m21 = bz0.y;
    let m22 = bz0.z;
    if m22 <= 0 {
        let dif10 = m11 - m00;
        let omm22 = UNIT - m22;
        if dif10 <= 0 {
            let s2 = branch_sqrt_f(omm22 - dif10);
            let s4 = 2 * s2;
            Quat {
                x: s2 / 2,
                y: div_f(m01 + m10, s4),
                z: div_f(m02 + m20, s4),
                w: div_f(m12 - m21, s4),
            }
        } else {
            let s2 = branch_sqrt_f(omm22 + dif10);
            let s4 = 2 * s2;
            Quat {
                x: div_f(m01 + m10, s4),
                y: s2 / 2,
                z: div_f(m12 + m21, s4),
                w: div_f(m20 - m02, s4),
            }
        }
    } else {
        let sum10 = m11 + m00;
        let opm22 = UNIT + m22;
        if sum10 <= 0 {
            let s2 = branch_sqrt_f(opm22 - sum10);
            let s4 = 2 * s2;
            Quat {
                x: div_f(m02 + m20, s4),
                y: div_f(m12 + m21, s4),
                z: s2 / 2,
                w: div_f(m01 - m10, s4),
            }
        } else {
            let s2 = branch_sqrt_f(opm22 + sum10);
            let s4 = 2 * s2;
            Quat {
                x: div_f(m12 - m21, s4),
                y: div_f(m20 - m02, s4),
                z: div_f(m01 - m10, s4),
                w: s2 / 2,
            }
        }
    }
}

/// Square root of `four * UNIT` for a branch discriminant.
fn branch_sqrt_f(four: i64) -> (r: i64)
    requires
        UNIT <= four <= 7 * UNIT,
    ensures
        r == sqrt_floor(four as int * (UNIT as int)),
        UNIT <= r <= 2_645_751,
{
    proof {
        lemma_branch_sqrt(four as int);
        assert((four as int) * (UNIT as int) <= 7_000_000_000_000) by (nonlinear_arith)
            requires
                four <= 7 * UNIT,
                four >= 0,
        ;
    }
    isqrt((four as u128) * (UNIT as u128)) as i64
}

/// Halve a scalar, truncating toward zero.
fn half_f(a: i64) -> (r: i64)
    requires
        -ANG_MAX <= a <= ANG_MAX,
    ensures
        r == tdiv(a as int, 2),
        -ANG_MAX <= r <= ANG_MAX,
{
    if a >= 0 {
        ((a as u64) / 2) as i64
    } else {
        -((((-a) as u64) / 2) as i64)
    }
}

/// A product of calculation-bounded components cannot overflow.
proof fn lemma_qc_prod_bound(a: int, b: int)
    requires
        -8_000_000 <= a <= 8_000_000,
        -8_000_000 <= b <= 8_000_000,
    ensures
        -64_000_000_000_000 <= a * b <= 64_000_000_000_000,
{
    assert(-64_000_000_000_000 <= a * b <= 64_000_000_000_000) by (nonlinear_arith)
        requires
            -8_000_000 <= a <= 8_000_000,
            -8_000_000 <= b <= 8_000_000,
    ;
}

/// A product of stored-rotation components cannot overflow.
proof fn lemma_q_prod_bound(a: int, b: int)
    requires
        q_in_range(a),
        q_in_range(b),
    ensures
        -(QMAX as int) * (QMAX as int) <= a * b <= (QMAX as int) * (QMAX as int),
{
    assert(-(QMAX as int) * (QMAX as int) <= a * b <= (QMAX as int) * (QMAX as int))
        by (nonlinear_arith)
        requires
            -(QMAX as int) <= a <= QMAX as int,
            -(QMAX as int) <= b <= QMAX as int,
    ;
}

/// The fixed-point product of two unit-bounded factors is unit-bounded, and
/// saturation never engages.
proof fn lemma_fmul_unit(a: int, b: int)
    requires
        -(UNIT as int) <= a <= UNIT as int,
        -(UNIT as int) <= b <= UNIT as int,
    ensures
        -(UNIT as int) <= fmul(a, b) <= UNIT as int,
{
    let u = UNIT as int;
    assert(-(u * u) <= a * b <= u * u) by (nonlinear_arith)
        requires
            -u <= a <= u,
            -u <= b <= u,
    ;
    if a * b >= 0 {
        vstd::arithmetic::div_mod::lemma_div_pos_is_pos(a * b, u);
        vstd::arithmetic::div_mod::lemma_div_is_ordered(a * b, u * u, u);
        vstd::arithmetic::div_mod::lemma_div_multiples_vanish(u, u);
        assert(u * u == u * u);
    } else {
        vstd::arithmetic::div_mod::lemma_div_pos_is_pos(-(a * b), u);
        vstd::arithmetic::div_mod::lemma_div_is_ordered(-(a * b), u * u, u);
        vstd::arithmetic::div_mod::lemma_div_multiples_vanish(u, u);
    }
}

} // verus!
