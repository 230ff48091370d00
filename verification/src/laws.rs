//! The laws the rig obeys, stated and proved once and for all.

use vstd::prelude::*;
use crate::fixed::{
    fdist, flerp, fmul, tdiv, UNIT, MAX_RAW, lemma_lerp, lemma_fmul_neg, lemma_clamped_neg,
};
use crate::vec3::V3;
use crate::quat::{Q4, quat_of_yaw_pitch};
use crate::transform::T3;
use crate::drivers::{ArmM, SmoothM, wrap_yaw};
use crate::trig::{sin_ud, cos_ud, DEG_90, DEG_180, DEG_360, DEG_720, lemma_sin_shift_half_turn};
use crate::expo::{interp_of, lemma_interp_of_bounds};

verus! {

/// Negating a quaternion leaves the rotation it performs unchanged: the two
/// points of the double cover rotate every vector identically, down to the
/// last fixed-point digit.
pub proof fn lemma_rotate_neg(q: Q4, v: V3)
    ensures
        q.neg().rotate(v) == q.rotate(v),
{
    let u = q.vpart();
    let un = q.neg().vpart();
    lemma_fmul_neg(u.y, v.z);
    lemma_fmul_neg(u.z, v.y);
    lemma_fmul_neg(u.z, v.x);
    lemma_fmul_neg(u.x, v.z);
    lemma_fmul_neg(u.x, v.y);
    lemma_fmul_neg(u.y, v.x);
    lemma_clamped_neg(fmul(u.y, v.z) - fmul(u.z, v.y));
    lemma_clamped_neg(fmul(u.z, v.x) - fmul(u.x, v.z));
    lemma_clamped_neg(fmul(u.x, v.y) - fmul(u.y, v.x));
    let c = u.cross(v);
    let cn = un.cross(v);
    assert(cn == c.neg());
    lemma_clamped_neg(c.x + c.x);
    lemma_clamped_neg(c.y + c.y);
    lemma_clamped_neg(c.z + c.z);
    let t = V3 {
        x: crate::fixed::fadd(c.x, c.x),
        y: crate::fixed::fadd(c.y, c.y),
        z: crate::fixed::fadd(c.z, c.z),
    };
    let tn = V3 {
        x: crate::fixed::fadd(cn.x, cn.x),
        y: crate::fixed::fadd(cn.y, cn.y),
        z: crate::fixed::fadd(cn.z, cn.z),
    };
    assert(tn == t.neg());
    lemma_fmul_neg(t.x, q.w);
    lemma_fmul_neg(t.y, q.w);
    lemma_fmul_neg(t.z, q.w);
    assert(tn.scale(q.neg().w) == t.scale(q.w));
    lemma_fmul_neg(u.y, t.z);
    lemma_fmul_neg(u.z, t.y);
    lemma_fmul_neg(u.z, t.x);
    lemma_fmul_neg(u.x, t.z);
    lemma_fmul_neg(u.x, t.y);
    lemma_fmul_neg(u.y, t.x);
    assert(un.cross(tn) == u.cross(t));
}

/// Convergence: smoothing toward a constant target never increases the
/// distance to it, and strictly shrinks it while the distance times the
/// interpolation factor is at least one whole unit, so over repeated ticks
/// with a fixed time step the smoothed value approaches the target.
pub proof fn lemma_smooth_converges_to_constant_target(m: SmoothM, parent: T3, dt: int)
    requires
        m.wf(),
        parent.wf(),
        0 <= dt <= MAX_RAW as int,
        !m.output_predictive,
    ensures
        ({
            let prev = match m.smoothed_position {
                Some(v) => v,
                None => parent.translation,
            };
            let t = interp_of(m.position_smoothness, dt);
            let (m2, out) = m.step(parent, dt);
            m2.smoothed_position == Some(out.translation) && out.translation.dist(
                parent.translation,
            ) <= prev.dist(parent.translation) && (prev.dist(parent.translation) * t
                >= UNIT as int ==> out.translation.dist(parent.translation) < prev.dist(
                parent.translation,
            ))
        }),
{
    let target = parent.translation;
    let prev = match m.smoothed_position {
        Some(v) => v,
        None => target,
    };
    let t = interp_of(m.position_smoothness, dt);
    lemma_interp_of_bounds(m.position_smoothness, dt);
    lemma_lerp(prev.x, target.x, t);
    lemma_lerp(prev.y, target.y, t);
    lemma_lerp(prev.z, target.z, t);
    let sp = prev.lerp(target, t);
    let dmax = prev.dist(target);
    if dmax * t >= UNIT as int {
        if fdist(prev.x, target.x) == dmax {
            assert(fdist(sp.x, target.x) < dmax);
        }
        if fdist(prev.y, target.y) == dmax {
            assert(fdist(sp.y, target.y) < dmax);
        }
        if fdist(prev.z, target.z) == dmax {
            assert(fdist(sp.z, target.z) < dmax);
        }
    }
}

/// Snap at zero smoothness: with both smoothness constants zero and any
/// measurable elapsed time, one smoothing step emits the parent's
/// translation exactly and the parent's rotation up to normalization.
pub proof fn lemma_smooth_snaps_at_zero_smoothness(m: SmoothM, parent: T3, dt: int)
    requires
        m.wf(),
        parent.wf(),
        2 <= dt <= MAX_RAW as int,
        m.position_smoothness == 0,
        m.rotation_smoothness == 0,
        !m.output_predictive,
    ensures
        m.step(parent, dt).1.translation == parent.translation,
        ({
            let prev_r = match m.smoothed_rotation {
                Some(q) => q,
                None => parent.rotation,
            };
            let o2 = if prev_r.dot(parent.rotation) < 0 {
                parent.rotation.neg()
            } else {
                parent.rotation
            };
            m.step(parent, dt).1.rotation == o2.normalize()
        }),
{
    let target = parent.translation;
    let prev = match m.smoothed_position {
        Some(v) => v,
        None => target,
    };
    lemma_interp_of_bounds(0, dt);
    let t = interp_of(0, dt);
    lemma_lerp(prev.x, target.x, t);
    lemma_lerp(prev.y, target.y, t);
    lemma_lerp(prev.z, target.z, t);
    assert(prev.lerp(target, t) == target);
    let prev_r = match m.smoothed_rotation {
        Some(q) => q,
        None => parent.rotation,
    };
    let o2 = if prev_r.dot(parent.rotation) < 0 {
        parent.rotation.neg()
    } else {
        parent.rotation
    };
    lemma_lerp(prev_r.x, o2.x, t);
    lemma_lerp(prev_r.y, o2.y, t);
    lemma_lerp(prev_r.z, o2.z, t);
    lemma_lerp(prev_r.w, o2.w, t);
    assert((Q4 {
        x: flerp(prev_r.x, o2.x, t),
        y: flerp(prev_r.y, o2.y, t),
        z: flerp(prev_r.z, o2.z, t),
        w: flerp(prev_r.w, o2.w, t),
    }) == o2);
}

/// The arm offset rotates with the parent: the arm's output translation is
/// exactly the parent's translation plus the offset rotated into world space
/// by the parent's rotation; rotation and scale pass through.
pub proof fn lemma_arm_offset_rotates_with_parent(m: ArmM, parent: T3)
    ensures
        m.step(parent).1.translation == parent.translation.add(
            parent.rotation.rotate(m.offset),
        ),
        m.step(parent).1.rotation == parent.rotation,
        m.step(parent).1.scale == parent.scale,
        m.step(parent).0 == m,
{
}

/// The wrapped yaw always lands in `[0, 720)` degrees.
pub proof fn lemma_yaw_stays_wrapped(a: int)
    ensures
        0 <= wrap_yaw(a) < DEG_720 as int,
{
    vstd::arithmetic::div_mod::lemma_mod_bound(a, DEG_720 as int);
}

/// A full extra turn of yaw leaves the driver's rotation unchanged as a
/// rotation: the quaternion for `yaw + 360` degrees is the negation of the
/// one for `yaw`, and both rotate every vector identically. Together with
/// the wrap into `[0, 720)`, yaw values that differ by 360 degrees are
/// rotationally equivalent.
pub proof fn lemma_full_turn_yaw_same_rotation(yaw: int, pitch: int, v: V3)
    requires
        yaw >= 0,
    ensures
        quat_of_yaw_pitch(yaw + DEG_360 as int, pitch) == quat_of_yaw_pitch(yaw, pitch).neg(),
        quat_of_yaw_pitch(yaw + DEG_360 as int, pitch).rotate(v) == quat_of_yaw_pitch(
            yaw,
            pitch,
        ).rotate(v),
{
    let hy = tdiv(yaw, 2);
    let hp = tdiv(pitch, 2);
    vstd::arithmetic::div_mod::lemma_fundamental_div_mod(yaw, 2);
    vstd::arithmetic::div_mod::lemma_mod_bound(yaw, 2);
    vstd::arithmetic::div_mod::lemma_fundamental_div_mod_converse(
        yaw + DEG_360 as int,
        2,
        yaw / 2 + DEG_180 as int,
        yaw % 2,
    );
    assert(tdiv(yaw + DEG_360 as int, 2) == hy + DEG_180 as int);
    lemma_sin_shift_half_turn(hy);
    lemma_sin_shift_half_turn(hy + DEG_90 as int);
    assert(cos_ud(hy + DEG_180 as int) == sin_ud((hy + DEG_90 as int) + DEG_180 as int));
    let sy = sin_ud(hy);
    let cy = cos_ud(hy);
    let sp = sin_ud(hp);
    let cp = cos_ud(hp);
    lemma_fmul_neg(cy, sp);
    lemma_fmul_neg(sy, cp);
    lemma_fmul_neg(sy, sp);
    lemma_fmul_neg(cy, cp);
    lemma_rotate_neg(quat_of_yaw_pitch(yaw, pitch), v);
}

/// Two full extra turns of yaw give back the very same quaternion: each full
/// turn negates it, and negating twice is the identity.
pub proof fn lemma_two_full_turns_same_quaternion(yaw: int, pitch: int)
    requires
        yaw >= 0,
    ensures
        quat_of_yaw_pitch(yaw + DEG_720 as int, pitch) == quat_of_yaw_pitch(yaw, pitch),
{
    let v = V3 { x: 0, y: 0, z: 0 };
    lemma_full_turn_yaw_same_rotation(yaw, pitch, v);
    lemma_full_turn_yaw_same_rotation(yaw + DEG_360 as int, pitch, v);
    assert(yaw + DEG_360 as int + DEG_360 as int == yaw + DEG_720 as int);
}

/// Wrapping the yaw into `[0, 720)` degrees never changes the driver's
/// quaternion: the wrap removes whole multiples of two full turns, each of
/// which leaves the quaternion untouched. So the additive yaw mutator is
/// exact: the rotation for the wrapped angle is the rotation for the raw sum.
pub proof fn lemma_wrapped_yaw_same_quaternion(yaw: int, pitch: int)
    requires
        yaw >= 0,
    ensures
        quat_of_yaw_pitch(wrap_yaw(yaw), pitch) == quat_of_yaw_pitch(yaw, pitch),
    decreases yaw,
{
    let m = DEG_720 as int;
    if yaw < m {
        vstd::arithmetic::div_mod::lemma_small_mod(yaw as nat, m as nat);
    } else {
        vstd::arithmetic::div_mod::lemma_mod_sub_multiples_vanish(yaw, m);
        assert(-m + yaw == yaw - m);
        lemma_wrapped_yaw_same_quaternion(yaw - m, pitch);
        lemma_two_full_turns_same_quaternion(yaw - m, pitch);
        assert(yaw - m + m == yaw);
    }
}

} // verus!
