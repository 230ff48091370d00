use dolly_rig::drivers::{Position, Smooth, YawPitch};
use dolly_rig::fixed::UNIT;
use dolly_rig::rig::{Driver, Rig};
use dolly_rig::vec3::Vec3;

fn units(n: i64) -> i64 {
    n * UNIT
}

fn dist(a: i64, b: i64) -> i64 {
    (a - b).abs()
}

/// Convergence: with positive smoothness the distance to a constant target
/// never grows from tick to tick and ends up negligible.
#[test]
fn smoothing_converges_monotonically() {
    let mut rig = Rig::builder()
        .with(Driver::Position(Position::new(Vec3::zero())))
        .with(Driver::Smooth(Smooth::new_position(units(1))))
        .build();
    let target = Vec3::new(units(10), 0, 0);
    assert!(rig.set_position_target(target));
    let mut last = dist(rig.final_transform.translation.x, target.x);
    for _ in 0..240 {
        let out = rig.update(16_667);
        let d = dist(out.translation.x, target.x);
        assert!(d <= last);
        last = d;
    }
    // After four seconds the residual is down to fixed-point dust.
    assert!(last <= 20);
}

/// Snap at zero smoothness: a single tick lands exactly on the raw target.
#[test]
fn zero_smoothness_snaps_in_one_tick() {
    let mut rig = Rig::builder()
        .with(Driver::Position(Position::new(Vec3::zero())))
        .with(Driver::Smooth(Smooth::new_position(0)))
        .build();
    let target = Vec3::new(units(3), -units(2), units(9));
    assert!(rig.set_position_target(target));
    let out = rig.update(16_000);
    assert_eq!(out.translation, target);
}

/// Framerate independence: chopping the same elapsed time into fine or
/// coarse ticks gives smoothed results within a small tolerance.
#[test]
fn smoothing_is_framerate_independent() {
    let target = Vec3::new(units(5), 0, 0);
    let mut fine = Rig::builder()
        .with(Driver::Position(Position::new(Vec3::zero())))
        .with(Driver::Smooth(Smooth::new_position(units(1))))
        .build();
    let mut coarse = Rig::builder()
        .with(Driver::Position(Position::new(Vec3::zero())))
        .with(Driver::Smooth(Smooth::new_position(units(1))))
        .build();
    assert!(fine.set_position_target(target));
    assert!(coarse.set_position_target(target));
    for _ in 0..60 {
        fine.update(16_000);
    }
    for _ in 0..30 {
        coarse.update(32_000);
    }
    let a = fine.final_transform.translation.x;
    let b = coarse.final_transform.translation.x;
    // The same 0.96 seconds of smoothing, within two thousandths of a unit.
    assert!(dist(a, b) <= 2_000, "fine {} vs coarse {}", a, b);
}

/// A negative or oversized time step is guarded to the nearest valid one
/// instead of being rejected: a negative step behaves as no time passing.
#[test]
fn bad_time_steps_are_guarded() {
    let mut rig = Rig::builder()
        .with(Driver::Position(Position::new(Vec3::zero())))
        .with(Driver::Smooth(Smooth::new_position(units(1))))
        .build();
    let target = Vec3::new(units(10), 0, 0);
    assert!(rig.set_position_target(target));
    let frozen = rig.update(-16_000);
    assert_eq!(frozen.translation, Vec3::zero());
    let moved = rig.update(16_000);
    assert!(moved.translation.x > 0);
}

/// Smoothed rotations stay numerically close to unit length: the filter
/// re-normalizes every tick.
#[test]
fn smoothed_rotations_stay_normalized() {
    let mut rig = Rig::builder()
        .with(Driver::YawPitch(YawPitch::new(0, 0)))
        .with(Driver::Smooth(Smooth::new_rotation(units(1))))
        .build();
    for _ in 0..120 {
        assert!(rig.rotate_yaw_pitch(7_000_000, 500_000));
        let out = rig.update(16_667);
        let q = out.rotation;
        let norm_sq = q.x * q.x + q.y * q.y + q.z * q.z + q.w * q.w;
        let unit_sq = UNIT * UNIT;
        assert!((norm_sq - unit_sq).abs() <= unit_sq / 100);
    }
}

/// The predictive smoother leads a moving target instead of trailing it.
#[test]
fn predictive_smoothing_leads_the_target() {
    let mut plain = Rig::builder()
        .with(Driver::Position(Position::new(Vec3::zero())))
        .with(Driver::Smooth(Smooth::new_position(units(1))))
        .build();
    let mut predictive = Rig::builder()
        .with(Driver::Position(Position::new(Vec3::zero())))
        .with(Driver::Smooth(Smooth::new_position(units(1)).predictive(true)))
        .build();
    // Both chase a target sliding along the X axis.
    for k in 1..=60i64 {
        let target = Vec3::new(k * UNIT / 10, 0, 0);
        assert!(plain.set_position_target(target));
        assert!(predictive.set_position_target(target));
        plain.update(16_000);
        predictive.update(16_000);
    }
    let target_x = units(6);
    let lag = plain.final_transform.translation.x;
    let lead = predictive.final_transform.translation.x;
    assert!(lag < target_x);
    assert!(lead > lag);
}
