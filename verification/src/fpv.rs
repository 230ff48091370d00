//! A first-person-view camera: the same nested rig as the first-person
//! camera, with a combined steer-and-move entry point.

use vstd::prelude::*;
use crate::fixed::{in_range, fmul, MAX_RAW, mul_f};
use crate::vec3::Vec3;
use crate::transform::{T3, Transform};
use crate::drivers::{PositionM, YawPitchM, wrap_yaw, clamp_pitch};
use crate::rig::{
    Rig, Driver, DriverModel, DriverKind, RigModel, rig_model, rig_model_wf, drivers_model,
    rig_step, find_kind,
};
use crate::fps::fps_drivers;

verus! {

/// A first-person-view camera rig wrapped as a single unit.
pub struct Fpv(pub Rig);

impl Fpv {
    /// Build the rig from a starting transform and its yaw and pitch in
    /// micro-degrees.
    pub fn from_position_target(target_transform: Transform, yaw_degrees: i64, pitch_degrees: i64)
        -> (r: Fpv)
        requires
            target_transform@.wf(),
            in_range(yaw_degrees as int),
            in_range(pitch_degrees as int),
        ensures
            rig_model(r.0) == rig_step(
                RigModel {
                    drivers: fps_drivers(
                        target_transform@.translation,
                        target_transform@.rotation,
                        yaw_degrees as int,
                        pitch_degrees as int,
                    ),
                    final_transform: T3::identity(),
                },
                0,
            ).0,
            rig_model_wf(rig_model(r.0)),
    {
        let fps = crate::fps::Fps::from_position_target(
            target_transform,
            yaw_degrees,
            pitch_degrees,
        );
        Fpv(fps.0)
    }

    /// Steer by mouse motion (a tenth of it, negated) and move the position
    /// lock along the player's motion scaled by ten times the elapsed time.
    pub fn update_pos_rot(
        &mut self,
        player_move: Vec3,
        delta_x: i64,
        delta_y: i64,
        delta_time: i64,
    ) -> (r: bool)
        requires
            rig_model_wf(rig_model(old(self).0)),
            in_range(delta_x as int),
            in_range(delta_y as int),
            player_move@.wf(),
            0 <= delta_time <= MAX_RAW,
        ensures
            rig_model_wf(rig_model(final(self).0)),
            ({
                let ms0 = drivers_model(old(self).0.drivers@);
                let dy = fmul(delta_x as int, -100_000);
                let dp = fmul(delta_y as int, -100_000);
                let ms1 = match find_kind(ms0, DriverKind::YawPitch) {
                    None => ms0,
                    Some(i) => ms0.update(
                        i,
                        DriverModel::YawPitch(
                            YawPitchM {
                                yaw: wrap_yaw(ms0[i]->YawPitch_0.yaw + dy),
                                pitch: clamp_pitch(ms0[i]->YawPitch_0.pitch + dp),
                            },
                        ),
                    ),
                };
                let mv = player_move@.scale(fmul(delta_time as int, 10_000_000));
                let ms2 = match find_kind(ms1, DriverKind::Position) {
                    None => ms1,
                    Some(i) => ms1.update(
                        i,
                        DriverModel::Position(
                            PositionM { position: ms1[i]->Position_0.position.add(mv) },
                        ),
                    ),
                };
                drivers_model(final(self).0.drivers@) == ms2 && final(self).0.final_transform
                    == old(self).0.final_transform
            }),
    {
        let dy = mul_f(delta_x, -100_000);
        let dp = mul_f(delta_y, -100_000);
        let a = self.0.rotate_yaw_pitch(dy, dp);
        let mv = player_move.scale(mul_f(delta_time, 10_000_000));
        let b = match self.0.position_target() {
            Some(p) => self.0.set_position_target(p.add(&mv)),
            None => false,
        };
        a && b
    }

    /// Wrap the whole rig as a single driver for use inside another rig.
    pub fn into_driver(self) -> (r: Driver)
        ensures
            crate::rig::driver_model(r) == DriverModel::Composite(rig_model(self.0)),
    {
        Driver::Composite(Box::new(self.0))
    }
}

} // verus!
