//! A follower camera: smoothed movement combined with a look-at driver,
//! packaged as one nested rig so it can be dropped into another rig as a
//! single driver.

use vstd::prelude::*;
use crate::fixed::UNIT;
use crate::vec3::{V3, Vec3};
use crate::quat::{Q4, Quat};
use crate::transform::T3;
use crate::drivers::{
    Position, Rotation, Arm, LookAt, Smooth, PositionM, RotationM, ArmM, LookAtM, SmoothM,
};
use crate::rig::{
    Rig, Driver, DriverModel, DriverKind, RigModel, rig_model, rig_model_wf,
    drivers_model, rig_step, find_kind,
};

verus! {

/// One unit along the world up axis.
pub open spec fn up_unit() -> V3 {
    V3 { x: 0, y: UNIT as int, z: 0 }
}

/// The driver chain of a follower camera aimed at `target`: position and
/// rotation locks, a predictive position smoother, a shoulder-height boom
/// arm, a second position smoother, and a predictive smoothed look-at aimed
/// one unit above the target.
pub open spec fn movable_look_at_drivers(target: V3) -> Seq<DriverModel> {
    seq![
        DriverModel::Position(PositionM { position: target }),
        DriverModel::Rotation(RotationM { rotation: Q4::identity() }),
        DriverModel::Smooth(
            SmoothM {
                position_smoothness: 1_250_000,
                rotation_smoothness: 0,
                output_predictive: true,
                smoothed_position: None,
                smoothed_rotation: None,
            },
        ),
        DriverModel::Arm(ArmM { offset: V3 { x: 0, y: 1_500_000, z: -3_500_000 } }),
        DriverModel::Smooth(
            SmoothM {
                position_smoothness: 2_500_000,
                rotation_smoothness: 0,
                output_predictive: false,
                smoothed_position: None,
                smoothed_rotation: None,
            },
        ),
        DriverModel::LookAt(
            LookAtM {
                target: target.add(up_unit()),
                smoothness: 1_250_000,
                predictive: true,
                smoothed_target: None,
            },
        ),
    ]
}

/// The follower chain is well-formed for any well-formed target.
proof fn lemma_movable_drivers_wf(target: V3)
    requires
        target.wf(),
    ensures
        crate::rig::models_wf(movable_look_at_drivers(target)),
{
    let s = movable_look_at_drivers(target);
    let s5 = s.drop_last();
    let s4 = s5.drop_last();
    let s3 = s4.drop_last();
    let s2 = s3.drop_last();
    let s1 = s2.drop_last();
    let s0 = s1.drop_last();
    assert(s0 =~= Seq::<DriverModel>::empty());
    assert(crate::rig::model_wf(s[0]));
    assert(crate::rig::model_wf(s[1]));
    assert(crate::rig::model_wf(s[2]));
    assert(crate::rig::model_wf(s[3]));
    assert(crate::rig::model_wf(s[4]));
    assert(crate::rig::model_wf(s[5]));
    assert(s1.last() == s[0] && s2.last() == s[1] && s3.last() == s[2] && s4.last() == s[3]
        && s5.last() == s[4] && s.last() == s[5]);
    assert(crate::rig::models_wf(s0));
    assert(crate::rig::models_wf(s1));
    assert(crate::rig::models_wf(s2));
    assert(crate::rig::models_wf(s3));
    assert(crate::rig::models_wf(s4));
    assert(crate::rig::models_wf(s5));
}

/// A custom camera rig which combines smoothed movement with a look-at
/// driver.
pub struct MovableLookAt(pub Rig);

impl MovableLookAt {
    /// Build the follower rig around a target position.
    pub fn from_position_target(target_position: Vec3) -> (r: MovableLookAt)
        requires
            target_position@.wf(),
        ensures
            rig_model(r.0) == rig_step(
                RigModel {
                    drivers: movable_look_at_drivers(target_position@),
                    final_transform: T3::identity(),
                },
                0,
            ).0,
            rig_model_wf(rig_model(r.0)),
    {
        let up = Vec3 { x: 0, y: UNIT, z: 0 };
        let b = Rig::builder()
            .with(Driver::Position(Position::new(target_position)))
            .with(Driver::Rotation(Rotation::new(Quat::identity())))
            .with(Driver::Smooth(Smooth::new_position(1_250_000).predictive(true)))
            .with(Driver::Arm(Arm::new(Vec3::new(0, 1_500_000, -3_500_000))))
            .with(Driver::Smooth(Smooth::new_position(2_500_000)))
            .with(
                Driver::LookAt(
                    LookAt::new(target_position.add(&up)).tracking_smoothness(
                        1_250_000,
                    ).tracking_predictive(true),
                ),
            );
        proof {
            assert(drivers_model(b.drivers@) =~= movable_look_at_drivers(target_position@));
            lemma_movable_drivers_wf(target_position@);
        }
        MovableLookAt(b.build())
    }

    /// Re-aim the whole rig: the position lock, the rotation lock, and the
    /// look-at target (kept one unit above the position) in one call.
    pub fn set_position_target(&mut self, target_position: Vec3, target_rotation: Quat) -> (r:
        bool)
        requires
            rig_model_wf(rig_model(old(self).0)),
            target_position@.wf(),
            target_rotation@.wf(),
        ensures
            rig_model_wf(rig_model(final(self).0)),
            ({
                let ms0 = drivers_model(old(self).0.drivers@);
                let ms1 = match find_kind(ms0, DriverKind::Position) {
                    None => ms0,
                    Some(i) => ms0.update(
                        i,
                        DriverModel::Position(PositionM { position: target_position@ }),
                    ),
                };
                let ms2 = match find_kind(ms1, DriverKind::Rotation) {
                    None => ms1,
                    Some(i) => ms1.update(
                        i,
                        DriverModel::Rotation(RotationM { rotation: target_rotation@ }),
                    ),
                };
                let ms3 = match find_kind(ms2, DriverKind::LookAt) {
                    None => ms2,
                    Some(i) => ms2.update(
                        i,
                        DriverModel::LookAt(
                            LookAtM {
                                target: target_position@.add(up_unit()),
                                ..ms2[i]->LookAt_0
                            },
                        ),
                    ),
                };
                drivers_model(final(self).0.drivers@) == ms3 && final(self).0.final_transform
                    == old(self).0.final_transform
            }),
    {
        let up = Vec3 { x: 0, y: UNIT, z: 0 };
        let a = self.0.set_position_target(target_position);
        let b = self.0.set_rotation_target(target_rotation);
        let c = self.0.set_look_at_target(target_position.add(&up));
        a && b && c
    }

    /// Wrap the whole rig as a single driver for use inside another rig.
    pub fn into_driver(self) -> (r: Driver)
        ensures
            crate::rig::driver_model(r) == DriverModel::Composite(rig_model(self.0)),
    {
        Driver::Composite(Box::new(self.0))
    }
}

} // verus!
