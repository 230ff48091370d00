//! A first-person camera: position and rotation locks, yaw/pitch control,
//! and a smoother, packaged as one nested rig.

use vstd::prelude::*;
use crate::fixed::{in_range, fmul, MAX_RAW, mul_f};
use crate::vec3::{V3, Vec3};
use crate::quat::Q4;
use crate::transform::{T3, Transform};
use crate::drivers::{
    Position, Rotation, YawPitch, Smooth, PositionM, RotationM, YawPitchM, SmoothM, wrap_yaw,
    clamp_pitch,
};
use crate::rig::{
    Rig, Driver, DriverModel, DriverKind, RigModel, rig_model, rig_model_wf, drivers_model,
    rig_step, find_kind,
};

verus! {

/// The driver chain of a first-person camera: position and rotation locks,
/// yaw/pitch control, and a gentle smoother (position smoothness one unit,
/// rotation smoothness a tenth).
pub open spec fn fps_drivers(translation: V3, rotation: Q4, yaw: int, pitch: int) -> Seq<
    DriverModel,
> {
    seq![
        DriverModel::Position(PositionM { position: translation }),
        DriverModel::Rotation(RotationM { rotation }),
        DriverModel::YawPitch(YawPitchM { yaw: wrap_yaw(yaw), pitch: clamp_pitch(pitch) }),
        DriverModel::Smooth(
            SmoothM {
                position_smoothness: 1_000_000,
                rotation_smoothness: 100_000,
                output_predictive: false,
                smoothed_position: None,
                smoothed_rotation: None,
            },
        ),
    ]
}

/// The first-person chain is well-formed.
proof fn lemma_fps_drivers_wf(translation: V3, rotation: Q4, yaw: int, pitch: int)
    requires
        translation.wf(),
        rotation.wf(),
    ensures
        crate::rig::models_wf(fps_drivers(translation, rotation, yaw, pitch)),
{
    let s = fps_drivers(translation, rotation, yaw, pitch);
    let s3 = s.drop_last();
    let s2 = s3.drop_last();
    let s1 = s2.drop_last();
    let s0 = s1.drop_last();
    assert(s0 =~= Seq::<DriverModel>::empty());
    vstd::arithmetic::div_mod::lemma_mod_bound(yaw, crate::trig::DEG_720 as int);
    assert(crate::rig::model_wf(s[0]));
    assert(crate::rig::model_wf(s[1]));
    assert(crate::rig::model_wf(s[2]));
    assert(crate::rig::model_wf(s[3]));
    assert(s1.last() == s[0] && s2.last() == s[1] && s3.last() == s[2] && s.last() == s[3]);
    assert(crate::rig::models_wf(s0));
    assert(crate::rig::models_wf(s1));
    assert(crate::rig::models_wf(s2));
    assert(crate::rig::models_wf(s3));
}

/// A first-person camera rig wrapped as a single unit.
pub struct Fps(pub Rig);

impl Fps {
    /// Build the first-person rig from a starting transform and its yaw and
    /// pitch in micro-degrees.
    pub fn from_position_target(target_transform: Transform, yaw_degrees: i64, pitch_degrees: i64)
        -> (r: Fps)
        requires
            target_transform@.wf(),
            in_range(yaw_degrees as int),
            in_range(pitch_degrees as int),
        ensures
            rig_model(r.0) == rig_step(
                RigModel {
                    drivers: fps_drivers(
                        target_transform@.translation,
                        target_transform@.rotation,
                        yaw_degrees as int,
                        pitch_degrees as int,
                    ),
                    final_transform: T3::identity(),
                },
                0,
            ).0,
            rig_model_wf(rig_model(r.0)),
    {
        let b = Rig::builder()
            .with(Driver::Position(Position::new(target_transform.translation)))
            .with(Driver::Rotation(Rotation::new(target_transform.rotation)))
            .with(Driver::YawPitch(YawPitch::new(yaw_degrees, pitch_degrees)))
            .with(Driver::Smooth(Smooth::new_position_rotation(1_000_000, 100_000)));
        proof {
            assert(drivers_model(b.drivers@) =~= fps_drivers(
                target_transform@.translation,
                target_transform@.rotation,
                yaw_degrees as int,
                pitch_degrees as int,
            ));
            lemma_fps_drivers_wf(
                target_transform@.translation,
                target_transform@.rotation,
                yaw_degrees as int,
                pitch_degrees as int,
            );
        }
        Fps(b.build())
    }

    /// Steer the camera: turn the yaw/pitch control by mouse motion scaled by
    /// a tenth of the sensitivity (negated, so dragging right turns right),
    /// and move the position lock along the player's motion scaled by ten
    /// times the elapsed time.
    pub fn set_rotation(
        &mut self,
        delta_x: i64,
        delta_y: i64,
        sensitivity_x: i64,
        sensitivity_y: i64,
        player_move: Vec3,
        delta_time: i64,
    ) -> (r: bool)
        requires
            rig_model_wf(rig_model(old(self).0)),
            in_range(delta_x as int),
            in_range(delta_y as int),
            in_range(sensitivity_x as int),
            in_range(sensitivity_y as int),
            player_move@.wf(),
            0 <= delta_time <= MAX_RAW,
        ensures
            rig_model_wf(rig_model(final(self).0)),
            ({
                let ms0 = drivers_model(old(self).0.drivers@);
                let dy = fmul(fmul(delta_x as int, sensitivity_x as int), -100_000);
                let dp = fmul(fmul(delta_y as int, sensitivity_y as int), -100_000);
                let ms1 = match find_kind(ms0, DriverKind::YawPitch) {
                    None => ms0,
                    Some(i) => ms0.update(
                        i,
                        DriverModel::YawPitch(
                            YawPitchM {
                                yaw: wrap_yaw(ms0[i]->YawPitch_0.yaw + dy),
                                pitch: clamp_pitch(ms0[i]->YawPitch_0.pitch + dp),
                            },
                        ),
                    ),
                };
                let mv = player_move@.scale(fmul(delta_time as int, 10_000_000));
                let ms2 = match find_kind(ms1, DriverKind::Position) {
                    None => ms1,
                    Some(i) => ms1.update(
                        i,
                        DriverModel::Position(
                            PositionM { position: ms1[i]->Position_0.position.add(mv) },
                        ),
                    ),
                };
                drivers_model(final(self).0.drivers@) == ms2 && final(self).0.final_transform
                    == old(self).0.final_transform
            }),
    {
        let dy = mul_f(mul_f(delta_x, sensitivity_x), -100_000);
        let dp = mul_f(mul_f(delta_y, sensitivity_y), -100_000);
        let a = self.0.rotate_yaw_pitch(dy, dp);
        let mv = player_move.scale(mul_f(delta_time, 10_000_000));
        let b = match self.0.position_target() {
            Some(p) => self.0.set_position_target(p.add(&mv)),
            None => false,
        };
        a && b
    }

    /// Wrap the whole rig as a single driver for use inside another rig.
    pub fn into_driver(self) -> (r: Driver)
        ensures
            crate::rig::driver_model(r) == DriverModel::Composite(rig_model(self.0)),
    {
        Driver::Composite(Box::new(self.0))
    }
}

} // verus!
