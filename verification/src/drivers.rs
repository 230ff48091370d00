//! The built-in drivers.
//!
//! Each driver consumes the transform produced by the previous driver in the
//! chain (the parent) together with the elapsed time, updates its own state,
//! and emits a new transform. Each has a ghost model and a pure step
//! function; the executable update is proved to follow it exactly.

use vstd::prelude::*;
use crate::fixed::{in_range, fadd, fsub, MAX_RAW, clamp_nonneg, add_f, sub_f, clamp_f, clamp_nonneg_f, emod_f};
use crate::vec3::{V3, Vec3};
use crate::quat::{Q4, Quat, look_at_rotation, quat_of_yaw_pitch};
use crate::transform::{T3, Transform};
use crate::trig::{DEG_90, DEG_720};
use crate::expo::interp_of;

verus! {

// ---------------------------------------------------------------- Position

/// Directly sets the position of the camera.
#[derive(Clone, Copy, Debug, PartialEq, Eq, Structural)]
pub struct Position {
    pub position: Vec3,
}

/// Model of a position driver.
pub ghost struct PositionM {
    pub position: V3,
}

impl Position {
    pub open spec fn model(self) -> PositionM {
        PositionM { position: self.position@ }
    }

    pub fn new(position: Vec3) -> (r: Position)
        requires
            position@.wf(),
        ensures
            r.model() == (PositionM { position: position@ }),
    {
        Position { position }
    }

    /// Add the given vector to the stored position.
    pub fn translate(&mut self, move_vec: Vec3)
        requires
            old(self).model().wf(),
            move_vec@.wf(),
        ensures
            final(self).model().position == old(self).model().position.add(move_vec@),
            final(self).model().wf(),
    {
        self.position = self.position.add(&move_vec);
    }
}

impl PositionM {
    pub open spec fn wf(self) -> bool {
        self.position.wf()
    }

    /// Replace the translation, keep rotation and scale.
    pub open spec fn step(self, parent: T3) -> (PositionM, T3) {
        (self, T3 { translation: self.position, rotation: parent.rotation, scale: parent.scale })
    }
}

// ---------------------------------------------------------------- Rotation

/// Directly sets the rotation of the camera.
#[derive(Clone, Copy, Debug, PartialEq, Eq, Structural)]
pub struct Rotation {
    pub rotation: Quat,
}

/// Model of a rotation driver.
pub ghost struct RotationM {
    pub rotation: Q4,
}

impl Rotation {
    pub open spec fn model(self) -> RotationM {
        RotationM { rotation: self.rotation@ }
    }

    pub fn new(rotation: Quat) -> (r: Rotation)
        requires
            rotation@.wf(),
        ensures
            r.model() == (RotationM { rotation: rotation@ }),
    {
        Rotation { rotation }
    }
}

impl RotationM {
    pub open spec fn wf(self) -> bool {
        self.rotation.wf()
    }

    /// Replace the rotation, keep translation and scale.
    pub open spec fn step(self, parent: T3) -> (RotationM, T3) {
        (self, T3 { translation: parent.translation, rotation: self.rotation, scale: parent.scale })
    }
}

// ---------------------------------------------------------------- Arm

/// Offsets the camera along a vector, in the coordinate space of the parent.
#[derive(Clone, Copy, Debug, PartialEq, Eq, Structural)]
pub struct Arm {
    pub offset: Vec3,
}

/// Model of an arm driver.
pub ghost struct ArmM {
    pub offset: V3,
}

impl Arm {
    pub open spec fn model(self) -> ArmM {
        ArmM { offset: self.offset@ }
    }

    pub fn new(offset: Vec3) -> (r: Arm)
        requires
            offset@.wf(),
        ensures
            r.model() == (ArmM { offset: offset@ }),
    {
        Arm { offset }
    }
}

impl ArmM {
    pub open spec fn wf(self) -> bool {
        self.offset.wf()
    }

    /// Add the offset, rotated into world space by the parent's rotation, to
    /// the parent's translation.
    pub open spec fn step(self, parent: T3) -> (ArmM, T3) {
        (
            self,
            T3 {
                translation: parent.translation.add(parent.rotation.rotate(self.offset)),
                rotation: parent.rotation,
                scale: parent.scale,
            },
        )
    }
}

// ---------------------------------------------------------------- YawPitch

/// Calculates the camera rotation from yaw and pitch angles, both stored in
/// micro-degrees. Yaw lives in `[0, 720)` degrees: two full turns, so that
/// interpolation near the wrap point does not take the long way around the
/// unit quaternion's double cover. Pitch is clamped to `[-90, 90]` degrees.
#[derive(Clone, Copy, Debug, PartialEq, Eq, Structural)]
pub struct YawPitch {
    pub yaw_degrees: i64,
    pub pitch_degrees: i64,
}

/// Model of a yaw/pitch driver.
pub ghost struct YawPitchM {
    pub yaw: int,
    pub pitch: int,
}

/// Wrap a yaw angle into `[0, 720)` degrees.
pub open spec fn wrap_yaw(a: int) -> int {
    a % (DEG_720 as int)
}

/// Clamp a pitch angle into `[-90, 90]` degrees.
pub open spec fn clamp_pitch(a: int) -> int {
    if a > DEG_90 as int {
        DEG_90 as int
    } else if a < -(DEG_90 as int) {
        -(DEG_90 as int)
    } else {
        a
    }
}

impl YawPitch {
    pub open spec fn model(self) -> YawPitchM {
        YawPitchM { yaw: self.yaw_degrees as int, pitch: self.pitch_degrees as int }
    }

    /// Build from yaw and pitch in micro-degrees; the yaw is wrapped and the
    /// pitch clamped into their ranges.
    pub fn new(yaw_degrees: i64, pitch_degrees: i64) -> (r: YawPitch)
        requires
            in_range(yaw_degrees as int),
            in_range(pitch_degrees as int),
        ensures
            r.model() == (YawPitchM {
                yaw: wrap_yaw(yaw_degrees as int),
                pitch: clamp_pitch(pitch_degrees as int),
            }),
            r.model().wf(),
    {
        YawPitch {
            yaw_degrees: emod_f(yaw_degrees, DEG_720),
            pitch_degrees: clamp_pitch_f(pitch_degrees),
        }
    }

    /// Additively rotate by the given angles: the yaw wraps modulo two full
    /// turns and stays in `[0, 720)` degrees, the pitch saturates at
    /// straight up and straight down.
    pub fn rotate_yaw_pitch(&mut self, yaw_degrees: i64, pitch_degrees: i64)
        requires
            old(self).model().wf(),
            in_range(yaw_degrees as int),
            in_range(pitch_degrees as int),
        ensures
            final(self).model().yaw == wrap_yaw(old(self).model().yaw + yaw_degrees),
            final(self).model().pitch == clamp_pitch(old(self).model().pitch + pitch_degrees),
            final(self).model().wf(),
    {
        let dy = emod_f(yaw_degrees, DEG_720);
        proof {
            vstd::arithmetic::div_mod::lemma_add_mod_noop(
                self.yaw_degrees as int,
                yaw_degrees as int,
                DEG_720 as int,
            );
            vstd::arithmetic::div_mod::lemma_small_mod(
                self.yaw_degrees as nat,
                DEG_720 as nat,
            );
        }
        self.yaw_degrees = emod_f(self.yaw_degrees + dy, DEG_720);
        self.pitch_degrees = clamp_pitch_f(clamp_f(self.pitch_degrees + pitch_degrees));
    }
}

fn clamp_pitch_f(a: i64) -> (r: i64)
    ensures
        r == clamp_pitch(a as int),
{
    if a > DEG_90 {
        DEG_90
    } else if a < -DEG_90 {
        -DEG_90
    } else {
        a
    }
}

impl YawPitchM {
    pub open spec fn wf(self) -> bool {
        0 <= self.yaw < DEG_720 as int && -(DEG_90 as int) <= self.pitch <= DEG_90 as int
    }

    /// Replace the rotation with the one built from yaw then pitch.
    pub open spec fn step(self, parent: T3) -> (YawPitchM, T3) {
        (
            self,
            T3 {
                translation: parent.translation,
                rotation: quat_of_yaw_pitch(self.yaw, self.pitch),
                scale: parent.scale,
            },
        )
    }
}

// ---------------------------------------------------------------- LookAt

/// Rotates the camera to point at a world-space position, optionally
/// smoothing the tracked target and optionally leading a moving target
/// instead of lagging behind it.
#[derive(Clone, Copy, Debug, PartialEq, Eq, Structural)]
pub struct LookAt {
    pub target: Vec3,
    pub smoothness: i64,
    pub predictive: bool,
    pub smoothed_target: Option<Vec3>,
}

/// Model of a look-at driver.
pub ghost struct LookAtM {
    pub target: V3,
    pub smoothness: int,
    pub predictive: bool,
    pub smoothed_target: Option<V3>,
}

impl LookAt {
    pub open spec fn model(self) -> LookAtM {
        LookAtM {
            target: self.target@,
            smoothness: self.smoothness as int,
            predictive: self.predictive,
            smoothed_target: match self.smoothed_target {
                Some(v) => Some(v@),
                None => None,
            },
        }
    }

    pub fn new(target: Vec3) -> (r: LookAt)
        requires
            target@.wf(),
        ensures
            r.model() == (LookAtM {
                target: target@,
                smoothness: 0,
                predictive: false,
                smoothed_target: None::<V3>,
            }),
            r.model().wf(),
    {
        LookAt { target, smoothness: 0, predictive: false, smoothed_target: None }
    }

    /// Set how laggily the driver tracks its target (zero snaps).
    pub fn tracking_smoothness(self, smoothness: i64) -> (r: LookAt)
        requires
            self.model().wf(),
        ensures
            r.model() == (LookAtM {
                smoothness: clamp_nonneg(smoothness as int),
                ..self.model()
            }),
            r.model().wf(),
    {
        LookAt { smoothness: clamp_nonneg_f(smoothness), ..self }
    }

    /// Look ahead of a moving target instead of lagging behind it.
    pub fn tracking_predictive(self, predictive: bool) -> (r: LookAt)
        requires
            self.model().wf(),
        ensures
            r.model() == (LookAtM { predictive, ..self.model() }),
            r.model().wf(),
    {
        LookAt { predictive, ..self }
    }
}

/// `2 * target - smoothed`, componentwise and saturating: the smoothed value
/// reflected through the target, so the output leads rather than lags.
pub open spec fn reflect_v(target: V3, smoothed: V3) -> V3 {
    V3 {
        x: fsub(fadd(target.x, target.x), smoothed.x),
        y: fsub(fadd(target.y, target.y), smoothed.y),
        z: fsub(fadd(target.z, target.z), smoothed.z),
    }
}

pub(crate) fn reflect_v_f(target: &Vec3, smoothed: &Vec3) -> (r: Vec3)
    requires
        target@.wf(),
        smoothed@.wf(),
    ensures
        r@ == reflect_v(target@, smoothed@),
        r@.wf(),
{
    Vec3 {
        x: sub_f(add_f(target.x, target.x), smoothed.x),
        y: sub_f(add_f(target.y, target.y), smoothed.y),
        z: sub_f(add_f(target.z, target.z), smoothed.z),
    }
}

impl LookAtM {
    pub open spec fn wf(self) -> bool {
        self.target.wf() && 0 <= self.smoothness <= MAX_RAW as int && match self.smoothed_target {
            Some(v) => v.wf(),
            None => true,
        }
    }

    /// Smooth the tracked target, then orient the camera from its current
    /// translation toward it; a degenerate direction keeps the parent's
    /// rotation.
    pub open spec fn step(self, parent: T3, dt: int) -> (LookAtM, T3) {
        let t = interp_of(self.smoothness, dt);
        let prev = match self.smoothed_target {
            Some(v) => v,
            None => self.target,
        };
        let smoothed = prev.lerp(self.target, t);
        let aimed = if self.predictive {
            reflect_v(self.target, smoothed)
        } else {
            smoothed
        };
        let dir = aimed.sub(parent.translation);
        let next = LookAtM { smoothed_target: Some(smoothed), ..self };
        (
            next,
            T3 {
                translation: parent.translation,
                rotation: look_at_rotation(dir, parent.rotation),
                scale: parent.scale,
            },
        )
    }
}

// ---------------------------------------------------------------- Anchor

/// Copies an externally supplied transform onto the pipeline output; meant
/// to stand first in a chain, seeding it from outside the pipeline's own
/// state.
#[derive(Clone, Copy, Debug, PartialEq, Eq, Structural)]
pub struct Anchor {
    pub target: Transform,
}

/// Model of an anchor driver.
pub ghost struct AnchorM {
    pub target: T3,
}

impl Anchor {
    pub open spec fn model(self) -> AnchorM {
        AnchorM { target: self.target@ }
    }

    pub fn new(target: Transform) -> (r: Anchor)
        requires
            target@.wf(),
        ensures
            r.model() == (AnchorM { target: target@ }),
    {
        Anchor { target }
    }
}

impl AnchorM {
    pub open spec fn wf(self) -> bool {
        self.target.wf()
    }

    /// Discard the parent and emit the anchored transform.
    pub open spec fn step(self, parent: T3) -> (AnchorM, T3) {
        (self, self.target)
    }
}

// ---------------------------------------------------------------- Smooth

/// Smooths the parent transform with a framerate-independent exponential
/// filter, position and rotation independently. In predictive mode the
/// output leads the parent instead of lagging it.
#[derive(Clone, Copy, Debug, PartialEq, Eq, Structural)]
pub struct Smooth {
    pub position_smoothness: i64,
    pub rotation_smoothness: i64,
    pub output_predictive: bool,
    pub smoothed_position: Option<Vec3>,
    pub smoothed_rotation: Option<Quat>,
}

/// Model of a smoothing driver.
pub ghost struct SmoothM {
    pub position_smoothness: int,
    pub rotation_smoothness: int,
    pub output_predictive: bool,
    pub smoothed_position: Option<V3>,
    pub smoothed_rotation: Option<Q4>,
}

impl Smooth {
    pub open spec fn model(self) -> SmoothM {
        SmoothM {
            position_smoothness: self.position_smoothness as int,
            rotation_smoothness: self.rotation_smoothness as int,
            output_predictive: self.output_predictive,
            smoothed_position: match self.smoothed_position {
                Some(v) => Some(v@),
                None => None,
            },
            smoothed_rotation: match self.smoothed_rotation {
                Some(q) => Some(q@),
                None => None,
            },
        }
    }

    /// Smooth both position and rotation.
    pub fn new_position_rotation(position_smoothness: i64, rotation_smoothness: i64) -> (r: Smooth)
        ensures
            r.model() == (SmoothM {
                position_smoothness: clamp_nonneg(position_smoothness as int),
                rotation_smoothness: clamp_nonneg(rotation_smoothness as int),
                output_predictive: false,
                smoothed_position: None::<V3>,
                smoothed_rotation: None::<Q4>,
            }),
            r.model().wf(),
    {
        Smooth {
            position_smoothness: clamp_nonneg_f(position_smoothness),
            rotation_smoothness: clamp_nonneg_f(rotation_smoothness),
            output_predictive: false,
            smoothed_position: None,
            smoothed_rotation: None,
        }
    }

    /// Smooth the position only; the rotation passes through (zero
    /// smoothness snaps).
    pub fn new_position(position_smoothness: i64) -> (r: Smooth)
        ensures
            r.model() == (SmoothM {
                position_smoothness: clamp_nonneg(position_smoothness as int),
                rotation_smoothness: 0,
                output_predictive: false,
                smoothed_position: None::<V3>,
                smoothed_rotation: None::<Q4>,
            }),
            r.model().wf(),
    {
        Smooth::new_position_rotation(position_smoothness, 0)
    }

    /// Smooth the rotation only.
    pub fn new_rotation(rotation_smoothness: i64) -> (r: Smooth)
        ensures
            r.model() == (SmoothM {
                position_smoothness: 0,
                rotation_smoothness: clamp_nonneg(rotation_smoothness as int),
                output_predictive: false,
                smoothed_position: None::<V3>,
                smoothed_rotation: None::<Q4>,
            }),
            r.model().wf(),
    {
        Smooth::new_position_rotation(0, rotation_smoothness)
    }

    /// Reverse the smoothing, so the output leads the parent transform: of
    /// use on top of a position driver, before another smoother, for a soft
    /// yet responsive follower camera.
    pub fn predictive(self, predictive: bool) -> (r: Smooth)
        requires
            self.model().wf(),
        ensures
            r.model() == (SmoothM { output_predictive: predictive, ..self.model() }),
            r.model().wf(),
    {
        Smooth { output_predictive: predictive, ..self }
    }
}

/// `2 * target - smoothed` on quaternion components, saturating; the result
/// is normalized by the caller.
pub open spec fn reflect_q(target: Q4, smoothed: Q4) -> Q4 {
    Q4 {
        x: fsub(fadd(target.x, target.x), smoothed.x),
        y: fsub(fadd(target.y, target.y), smoothed.y),
        z: fsub(fadd(target.z, target.z), smoothed.z),
        w: fsub(fadd(target.w, target.w), smoothed.w),
    }
}

/// Executable reflection on quaternion components.
pub(crate) fn reflect_q_f(target: &Quat, smoothed: &Quat) -> (r: Quat)
    requires
        target@.wf(),
        smoothed@.wf(),
    ensures
        r@ == reflect_q(target@, smoothed@),
        crate::quat::q_calc_bounded(r@),
{
    Quat {
        x: sub_f(add_f(target.x, target.x), smoothed.x),
        y: sub_f(add_f(target.y, target.y), smoothed.y),
        z: sub_f(add_f(target.z, target.z), smoothed.z),
        w: sub_f(add_f(target.w, target.w), smoothed.w),
    }
}

impl SmoothM {
    pub open spec fn wf(self) -> bool {
        0 <= self.position_smoothness <= MAX_RAW as int && 0 <= self.rotation_smoothness
            <= MAX_RAW as int && match self.smoothed_position {
            Some(v) => v.wf(),
            None => true,
        } && match self.smoothed_rotation {
            Some(q) => q.wf(),
            None => true,
        }
    }

    /// Exponentially smooth translation and rotation toward the parent's,
    /// remembering the smoothed values for the next tick.
    pub open spec fn step(self, parent: T3, dt: int) -> (SmoothM, T3) {
        let tp = interp_of(self.position_smoothness, dt);
        let tr = interp_of(self.rotation_smoothness, dt);
        let prev_p = match self.smoothed_position {
            Some(v) => v,
            None => parent.translation,
        };
        let sp = prev_p.lerp(parent.translation, tp);
        let out_p = if self.output_predictive {
            reflect_v(parent.translation, sp)
        } else {
            sp
        };
        let prev_r = match self.smoothed_rotation {
            Some(q) => q,
            None => parent.rotation,
        };
        let sr = prev_r.nlerp(parent.rotation, tr);
        let out_r = if self.output_predictive {
            reflect_q(parent.rotation, sr).normalize()
        } else {
            sr
        };
        let next = SmoothM {
            smoothed_position: Some(sp),
            smoothed_rotation: Some(sr),
            ..self
        };
        (next, T3 { translation: out_p, rotation: out_r, scale: parent.scale })
    }
}

} // verus!
