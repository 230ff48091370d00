use dolly_rig::drivers::{Arm, LookAt, Position, Rotation, YawPitch};
use dolly_rig::expo::{exp_neg_f, interp_f};
use dolly_rig::fixed::{add_f, isqrt, lerp_f, mul_f, UNIT};
use dolly_rig::follow::MovableLookAt;
use dolly_rig::fps::Fps;
use dolly_rig::fpv::Fpv;
use dolly_rig::map::{DollyTransform, Transform2Dolly, Transform2DollyMut};
use dolly_rig::quat::Quat;
use dolly_rig::rig::{Driver, Rig};
use dolly_rig::transform::Transform;
use dolly_rig::trig::{cos_ud_f, sin_ud_f};
use dolly_rig::vec3::Vec3;

fn units(n: i64) -> i64 {
    n * UNIT
}

fn close(a: i64, b: i64, tol: i64) -> bool {
    (a - b).abs() <= tol
}

#[test]
fn scalar_kernels_behave() {
    assert_eq!(add_f(units(1), units(2)), units(3));
    assert_eq!(mul_f(units(2), units(3)), units(6));
    assert_eq!(mul_f(-units(2), units(3)), -units(6));
    assert_eq!(lerp_f(0, units(10), UNIT / 2), units(5));
    assert_eq!(lerp_f(0, units(10), UNIT), units(10));
    assert_eq!(isqrt(4_000_000_000_000), 2_000_000);
}

#[test]
fn trigonometry_hits_the_cardinal_angles() {
    assert_eq!(sin_ud_f(0), 0);
    assert_eq!(sin_ud_f(90_000_000), UNIT);
    assert_eq!(sin_ud_f(180_000_000), 0);
    assert_eq!(sin_ud_f(270_000_000), -UNIT);
    assert_eq!(cos_ud_f(0), UNIT);
    assert_eq!(cos_ud_f(90_000_000), 0);
    // sin 30 is one half; sin 45 is the square root of one half.
    assert!(close(sin_ud_f(30_000_000), 500_000, 30));
    assert!(close(sin_ud_f(45_000_000), 707_107, 30));
    assert!(close(cos_ud_f(60_000_000), 500_000, 30));
}

#[test]
fn exponential_matches_the_real_curve() {
    assert_eq!(exp_neg_f(0), 1_000_000);
    assert!(close(exp_neg_f(1_000_000) as i64, 367_879, 60));
    assert!(close(exp_neg_f(500_000) as i64, 606_531, 60));
    assert_eq!(exp_neg_f(14_000_000), 0);
    // Zero elapsed time leaves the smoothed value alone; zero smoothness
    // snaps.
    assert_eq!(interp_f(units(1), 0), 0);
    assert_eq!(interp_f(0, 16_000), UNIT);
}

#[test]
fn arm_offset_rotates_with_the_parent() {
    // Under a 90-degree yaw, an offset of one unit along Z lands one unit
    // along X (up to fixed-point dust).
    let mut rig = Rig::builder()
        .with(Driver::YawPitch(YawPitch::new(90_000_000, 0)))
        .with(Driver::Arm(Arm::new(Vec3::new(0, 0, units(1)))))
        .build();
    let out = rig.update(16_000);
    assert!(close(out.translation.x, units(1), 1_000));
    assert!(close(out.translation.y, 0, 1_000));
    assert!(close(out.translation.z, 0, 1_000));
}

#[test]
fn look_at_down_the_forward_axis_is_identity() {
    let q = Quat::look_at(&Vec3::new(0, 0, -units(1)), &Quat::identity());
    assert_eq!(q, Quat::identity());
}

#[test]
fn degenerate_look_at_keeps_the_previous_rotation() {
    let fallback = Quat::from_yaw_pitch(45_000_000, 10_000_000);
    // A zero-length direction cannot be looked along.
    assert_eq!(Quat::look_at(&Vec3::zero(), &fallback), fallback);
    // Neither can one parallel to world-up.
    assert_eq!(Quat::look_at(&Vec3::new(0, units(2), 0), &fallback), fallback);
    // In a rig: a look-at target on top of the camera keeps the parent's
    // rotation.
    let mut rig = Rig::builder()
        .with(Driver::Position(Position::new(Vec3::new(units(1), 0, 0))))
        .with(Driver::Rotation(Rotation::new(fallback)))
        .with(Driver::LookAt(LookAt::new(Vec3::new(units(1), 0, 0))))
        .build();
    let out = rig.update(16_000);
    assert_eq!(out.rotation, fallback);
}

#[test]
fn look_at_quarter_turn() {
    // Looking from the origin along positive X is a yaw of minus ninety
    // degrees (or 270): the rotation should match the yaw/pitch one.
    let q = Quat::look_at(&Vec3::new(units(1), 0, 0), &Quat::identity());
    let expected = Quat::from_yaw_pitch(270_000_000, 0);
    // Either the same or the opposite point of the double cover.
    let same = close(q.x, expected.x, 1_500) && close(q.y, expected.y, 1_500)
        && close(q.z, expected.z, 1_500) && close(q.w, expected.w, 1_500);
    let opposite = close(q.x, -expected.x, 1_500) && close(q.y, -expected.y, 1_500)
        && close(q.z, -expected.z, 1_500) && close(q.w, -expected.w, 1_500);
    assert!(same || opposite);
}

#[test]
fn movable_look_at_composes_a_follower() {
    let mut follower = MovableLookAt::from_position_target(Vec3::zero());
    // At build time the boom arm puts the camera behind and above.
    assert_eq!(follower.0.final_transform.translation, Vec3::new(0, 1_500_000, -3_500_000));
    assert!(follower.set_position_target(Vec3::new(units(2), 0, 0), Quat::identity()));
    assert_eq!(follower.0.position_target(), Some(Vec3::new(units(2), 0, 0)));
    assert_eq!(follower.0.look_at_target(), Some(Vec3::new(units(2), units(1), 0)));
    // And the whole follower can run inside another rig.
    let mut outer = Rig::builder().with(follower.into_driver()).build();
    let out = outer.update(16_000);
    assert!(out.translation.y != 0 || out.translation.z != 0);
}

#[test]
fn fps_rig_steers_by_mouse_motion() {
    let start = Transform::identity();
    let mut fps = Fps::from_position_target(start, 0, 0);
    // One unit of mouse motion at unit sensitivity turns a tenth of a degree
    // the other way.
    assert!(fps.set_rotation(units(1), 0, units(1), units(1), Vec3::zero(), 16_000));
    assert_eq!(fps.0.yaw_pitch(), Some((719_900_000, 0)));
    // Player motion moves the position lock by ten times the elapsed time.
    assert!(fps.set_rotation(0, 0, units(1), units(1), Vec3::new(units(1), 0, 0), 100_000));
    assert_eq!(fps.0.position_target(), Some(Vec3::new(units(1), 0, 0)));
}

#[test]
fn fpv_rig_combines_motion_and_steering() {
    let start = Transform::identity();
    let mut fpv = Fpv::from_position_target(start, 0, 0);
    assert!(fpv.update_pos_rot(Vec3::new(0, 0, -units(1)), -units(2), 0, 100_000));
    assert_eq!(fpv.0.yaw_pitch(), Some((200_000, 0)));
    assert_eq!(fpv.0.position_target(), Some(Vec3::new(0, 0, -units(1))));
}

#[test]
fn hand_over_transforms_round_trip() {
    let mut raw = DollyTransform::new(
        &Vec3::new(units(1), units(2), units(3)),
        &Quat::identity(),
        &Vec3::new(UNIT, UNIT, UNIT),
    );
    let t = raw.transform_2_dolly();
    assert_eq!(t.translation, Vec3::new(units(1), units(2), units(3)));
    assert_eq!(t.rotation, Quat::identity());
    let t2 = raw.transform_2_dolly_mut();
    assert_eq!(t2, t);
    let back = DollyTransform::from_transform(&t);
    assert_eq!(back, raw);
}

#[test]
fn hand_over_guards_wild_components() {
    // Out-of-range raw values are clamped, not propagated.
    let raw = DollyTransform {
        tx: i64::MAX,
        ty: 0,
        tz: i64::MIN,
        rx: 0,
        ry: 0,
        rz: 0,
        rw: i64::MAX,
        sx: UNIT,
        sy: UNIT,
        sz: UNIT,
    };
    let t = raw.transform_2_dolly();
    assert_eq!(t.translation.x, 1_000_000_000_000);
    assert_eq!(t.translation.z, -1_000_000_000_000);
    assert_eq!(t.rotation.w, 2_000_000);
}
