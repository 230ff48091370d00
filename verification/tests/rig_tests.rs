use dolly_rig::drivers::{Anchor, Arm, LookAt, Position, Rotation, Smooth, YawPitch};
use dolly_rig::fixed::UNIT;
use dolly_rig::quat::Quat;
use dolly_rig::rig::{Driver, DriverKind, Rig};
use dolly_rig::transform::Transform;
use dolly_rig::vec3::Vec3;

fn units(n: i64) -> i64 {
    n * UNIT
}

#[test]
fn builder_runs_a_zero_time_update() {
    let rig = Rig::builder()
        .with(Driver::Position(Position::new(Vec3::new(units(1), units(2), units(3)))))
        .build();
    assert_eq!(rig.final_transform.translation, Vec3::new(units(1), units(2), units(3)));
    assert_eq!(rig.final_transform.rotation, Quat::identity());
}

#[test]
fn build_with_seed_pre_populates_the_locks() {
    let seed = Transform::from_translation_rotation(
        Vec3::new(units(5), units(6), units(7)),
        Quat::identity(),
    );
    let rig = Rig::builder()
        .with(Driver::Position(Position::new(Vec3::zero())))
        .with(Driver::Rotation(Rotation::new(Quat::new(0, UNIT, 0, 0))))
        .build_with_seed(seed);
    assert_eq!(rig.position_target(), Some(seed.translation));
    assert_eq!(rig.final_transform.translation, seed.translation);
    assert_eq!(rig.final_transform.rotation, Quat::identity());
}

#[test]
fn end_to_end_zero_smoothness_snaps_exactly() {
    // Position at the origin, identity rotation, then a smoother with zero
    // smoothness: one tick must produce exactly the identity pose.
    let mut rig = Rig::builder()
        .with(Driver::Position(Position::new(Vec3::zero())))
        .with(Driver::Rotation(Rotation::new(Quat::identity())))
        .with(Driver::Smooth(Smooth::new_position_rotation(0, 0)))
        .build();
    let out = rig.update(16_000);
    assert_eq!(out.translation, Vec3::zero());
    assert_eq!(out.rotation, Quat::identity());
}

#[test]
fn driver_order_is_significant() {
    // Position then arm: the arm offset lands on top of the position.
    let mut ahead = Rig::builder()
        .with(Driver::Position(Position::new(Vec3::new(units(1), 0, 0))))
        .with(Driver::Arm(Arm::new(Vec3::new(0, 0, units(1)))))
        .build();
    // Arm then position: the position lock overwrites the arm's work.
    let mut behind = Rig::builder()
        .with(Driver::Arm(Arm::new(Vec3::new(0, 0, units(1)))))
        .with(Driver::Position(Position::new(Vec3::new(units(1), 0, 0))))
        .build();
    let a = ahead.update(16_000);
    let b = behind.update(16_000);
    assert_eq!(a.translation, Vec3::new(units(1), 0, units(1)));
    assert_eq!(b.translation, Vec3::new(units(1), 0, 0));
    assert_ne!(a.translation, b.translation);
}

#[test]
fn lookup_returns_the_first_driver_of_a_kind() {
    let rig = Rig::builder()
        .with(Driver::Position(Position::new(Vec3::new(units(7), 0, 0))))
        .with(Driver::Smooth(Smooth::new_position(units(1))))
        .with(Driver::Smooth(Smooth::new_rotation(units(2))))
        .build();
    assert_eq!(rig.driver_index(DriverKind::Position), Some(0));
    assert_eq!(rig.driver_index(DriverKind::Smooth), Some(1));
    assert_eq!(rig.driver_index(DriverKind::YawPitch), None);
    assert_eq!(rig.position_target(), Some(Vec3::new(units(7), 0, 0)));
    assert_eq!(rig.look_at_target(), None);
}

#[test]
fn mutators_steer_the_first_matching_driver() {
    let mut rig = Rig::builder()
        .with(Driver::Position(Position::new(Vec3::zero())))
        .with(Driver::YawPitch(YawPitch::new(0, 0)))
        .with(Driver::LookAt(LookAt::new(Vec3::zero())))
        .build();
    assert!(rig.set_position_target(Vec3::new(units(4), 0, 0)));
    assert!(rig.rotate_yaw_pitch(90_000_000, -30_000_000));
    assert!(rig.set_look_at_target(Vec3::new(0, units(2), 0)));
    assert!(!rig.set_arm_offset(Vec3::zero()));
    assert_eq!(rig.position_target(), Some(Vec3::new(units(4), 0, 0)));
    assert_eq!(rig.yaw_pitch(), Some((90_000_000, -30_000_000)));
    assert_eq!(rig.look_at_target(), Some(Vec3::new(0, units(2), 0)));
}

#[test]
fn anchor_copies_the_external_transform() {
    let seed = Transform::from_translation_rotation(
        Vec3::new(units(3), units(1), 0),
        Quat::identity(),
    );
    let mut rig = Rig::builder().with(Driver::Anchor(Anchor::new(seed))).build();
    let out = rig.update(10_000);
    assert_eq!(out.translation, seed.translation);
    assert_eq!(out.rotation, seed.rotation);
}

#[test]
fn a_nested_rig_acts_as_one_driver() {
    // The inner rig fixes a pose; the outer rig runs it as a single driver
    // and then offsets it with an arm.
    let inner = Rig::builder()
        .with(Driver::Position(Position::new(Vec3::new(units(2), 0, 0))))
        .with(Driver::Rotation(Rotation::new(Quat::identity())))
        .build();
    let mut outer = Rig::builder()
        .with(Driver::Composite(Box::new(inner)))
        .with(Driver::Arm(Arm::new(Vec3::new(0, units(1), 0))))
        .build();
    let out = outer.update(16_000);
    assert_eq!(out.translation, Vec3::new(units(2), units(1), 0));
}

#[test]
fn an_empty_rig_emits_the_identity() {
    let mut rig = Rig::builder().build();
    let out = rig.update(16_000);
    assert_eq!(out, Transform::identity());
}

#[test]
fn update_caches_its_result() {
    let mut rig = Rig::builder()
        .with(Driver::Position(Position::new(Vec3::new(units(2), units(4), 0))))
        .build();
    let out = rig.update(20_000);
    assert_eq!(out, rig.final_transform);
}

#[test]
fn add_appends_a_driver_in_order() {
    let rig = Rig::builder()
        .with(Driver::Position(Position::new(Vec3::new(units(1), 0, 0))))
        .build();
    let mut rig = rig.add(Driver::Arm(Arm::new(Vec3::new(0, units(2), 0))));
    let out = rig.update(16_000);
    assert_eq!(out.translation, Vec3::new(units(1), units(2), 0));
}

#[test]
fn position_driver_translates_additively() {
    let mut p = Position::new(Vec3::new(units(1), 0, 0));
    p.translate(Vec3::new(units(2), units(3), 0));
    assert_eq!(p.position, Vec3::new(units(3), units(3), 0));
}

#[test]
fn yaw_pitch_new_guards_its_ranges() {
    let yp = YawPitch::new(-90_000_000, 100_000_000);
    assert_eq!(yp.yaw_degrees, 630_000_000);
    assert_eq!(yp.pitch_degrees, 90_000_000);
}

#[test]
fn yaw_pitch_wraps_and_clamps() {
    let mut rig = Rig::builder().with(Driver::YawPitch(YawPitch::new(0, 0))).build();
    for _ in 0..8 {
        assert!(rig.rotate_yaw_pitch(730_000_000, 10_000_000));
        let (yaw, pitch) = rig.yaw_pitch().unwrap();
        assert!(0 <= yaw && yaw < 720_000_000);
        assert!(-90_000_000 <= pitch && pitch <= 90_000_000);
    }
    // Eight turns of 730 degrees are 5840 degrees, which wrap to 80; the
    // pitch saturates at 80 degrees after eight steps of 10.
    assert_eq!(rig.yaw_pitch(), Some((80_000_000, 80_000_000)));
}

#[test]
fn full_turn_of_yaw_rotates_vectors_identically() {
    // 370 degrees and 10 degrees differ by a full turn: the quaternions are
    // opposite but rotate every vector to exactly the same place.
    let q_a = Quat::from_yaw_pitch(370_000_000, 0);
    let q_b = Quat::from_yaw_pitch(10_000_000, 0);
    let v = Vec3::new(units(1), units(2), units(3));
    assert_eq!(q_a.rotate(&v), q_b.rotate(&v));
    let w = Vec3::new(0, 0, -units(5));
    assert_eq!(q_a.rotate(&w), q_b.rotate(&w));
}
