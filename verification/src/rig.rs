//! The rig: an ordered chain of drivers plus the cached last output.
//!
//! Every tick the rig folds the identity transform through its drivers in
//! order and caches the result. A whole rig can itself be wrapped as a single
//! composite driver inside another rig.

use vstd::prelude::*;
use crate::fixed::{in_range, MAX_RAW};
use crate::vec3::Vec3;
use crate::quat::{Q4, Quat, lemma_look_at_rotation_wf, lemma_q_normalize_wf,
    lemma_quat_of_yaw_pitch_wf};
use crate::transform::{T3, Transform};
use crate::drivers::{
    Position, Rotation, Arm, YawPitch, LookAt, Anchor, Smooth, PositionM, RotationM, ArmM,
    YawPitchM, LookAtM, AnchorM, SmoothM, reflect_v_f, reflect_q_f,
};
use crate::expo::{interp_f, lemma_interp_of_bounds};

verus! {

/// A single transform-producing unit of behavior in a rig.
pub enum Driver {
    Position(Position),
    Rotation(Rotation),
    Arm(Arm),
    YawPitch(YawPitch),
    LookAt(LookAt),
    Anchor(Anchor),
    Smooth(Smooth),
    /// A whole nested rig acting as one driver: it ignores the parent
    /// transform and emits the nested rig's own output.
    Composite(Box<Rig>),
}

/// An ordered chain of drivers and the transform computed on the last tick.
pub struct Rig {
    pub drivers: Vec<Driver>,
    pub final_transform: Transform,
}

/// Model of a driver.
pub ghost enum DriverModel {
    Position(PositionM),
    Rotation(RotationM),
    Arm(ArmM),
    YawPitch(YawPitchM),
    LookAt(LookAtM),
    Anchor(AnchorM),
    Smooth(SmoothM),
    Composite(RigModel),
}

/// Model of a rig.
pub ghost struct RigModel {
    pub drivers: Seq<DriverModel>,
    pub final_transform: T3,
}

pub open spec fn driver_model(d: Driver) -> DriverModel
    decreases d,
{
    match d {
        Driver::Position(p) => DriverModel::Position(p.model()),
        Driver::Rotation(p) => DriverModel::Rotation(p.model()),
        Driver::Arm(p) => DriverModel::Arm(p.model()),
        Driver::YawPitch(p) => DriverModel::YawPitch(p.model()),
        Driver::LookAt(p) => DriverModel::LookAt(p.model()),
        Driver::Anchor(p) => DriverModel::Anchor(p.model()),
        Driver::Smooth(p) => DriverModel::Smooth(p.model()),
        Driver::Composite(r) => DriverModel::Composite(rig_model(*r)),
    }
}

pub open spec fn drivers_model(s: Seq<Driver>) -> Seq<DriverModel>
    decreases s,
{
    if s.len() == 0 {
        Seq::empty()
    } else {
        drivers_model(s.drop_last()).push(driver_model(s.last()))
    }
}

pub open spec fn rig_model(r: Rig) -> RigModel
    decreases r,
{
    RigModel { drivers: drivers_model(r.drivers@), final_transform: r.final_transform@ }
}

pub open spec fn model_wf(d: DriverModel) -> bool
    decreases d,
{
    match d {
        DriverModel::Position(m) => m.wf(),
        DriverModel::Rotation(m) => m.wf(),
        DriverModel::Arm(m) => m.wf(),
        DriverModel::YawPitch(m) => m.wf(),
        DriverModel::LookAt(m) => m.wf(),
        DriverModel::Anchor(m) => m.wf(),
        DriverModel::Smooth(m) => m.wf(),
        DriverModel::Composite(rm) => rig_model_wf(rm),
    }
}

pub open spec fn models_wf(ds: Seq<DriverModel>) -> bool
    decreases ds,
{
    ds.len() == 0 || (models_wf(ds.drop_last()) && model_wf(ds.last()))
}

pub open spec fn rig_model_wf(rm: RigModel) -> bool
    decreases rm,
{
    models_wf(rm.drivers) && rm.final_transform.wf()
}

/// One driver's tick: from its state and the parent transform to its next
/// state and its output transform.
pub open spec fn driver_step(d: DriverModel, parent: T3, dt: int) -> (DriverModel, T3)
    decreases d,
{
    match d {
        DriverModel::Position(m) => {
            let (m2, t) = m.step(parent);
            (DriverModel::Position(m2), t)
        },
        DriverModel::Rotation(m) => {
            let (m2, t) = m.step(parent);
            (DriverModel::Rotation(m2), t)
        },
        DriverModel::Arm(m) => {
            let (m2, t) = m.step(parent);
            (DriverModel::Arm(m2), t)
        },
        DriverModel::YawPitch(m) => {
            let (m2, t) = m.step(parent);
            (DriverModel::YawPitch(m2), t)
        },
        DriverModel::LookAt(m) => {
            let (m2, t) = m.step(parent, dt);
            (DriverModel::LookAt(m2), t)
        },
        DriverModel::Anchor(m) => {
            let (m2, t) = m.step(parent);
            (DriverModel::Anchor(m2), t)
        },
        DriverModel::Smooth(m) => {
            let (m2, t) = m.step(parent, dt);
            (DriverModel::Smooth(m2), t)
        },
        DriverModel::Composite(rm) => {
            let (rm2, t) = rig_step(rm, dt);
            (DriverModel::Composite(rm2), t)
        },
    }
}

/// Fold the parent transform through the drivers in order, collecting the
/// updated drivers and the final transform.
pub open spec fn fold_model(ds: Seq<DriverModel>, parent: T3, dt: int) -> (Seq<DriverModel>, T3)
    decreases ds,
{
    if ds.len() == 0 {
        (ds, parent)
    } else {
        let (ms, t) = fold_model(ds.drop_last(), parent, dt);
        let (d2, t2) = driver_step(ds.last(), t, dt);
        (ms.push(d2), t2)
    }
}

/// One whole-rig tick: fold the identity transform through the chain and
/// cache the result.
pub open spec fn rig_step(rm: RigModel, dt: int) -> (RigModel, T3)
    decreases rm,
{
    let (ds2, out) = fold_model(rm.drivers, T3::identity(), dt);
    (RigModel { drivers: ds2, final_transform: out }, out)
}

/// A step preserves driver well-formedness and emits a well-formed
/// transform.
pub proof fn lemma_driver_step_wf(d: DriverModel, parent: T3, dt: int)
    requires
        model_wf(d),
        parent.wf(),
        0 <= dt <= MAX_RAW as int,
    ensures
        model_wf(driver_step(d, parent, dt).0),
        driver_step(d, parent, dt).1.wf(),
    decreases d,
{
    match d {
        DriverModel::Position(_) => {},
        DriverModel::Rotation(_) => {},
        DriverModel::Arm(_) => {},
        DriverModel::YawPitch(m) => {
            lemma_quat_of_yaw_pitch_wf(m.yaw, m.pitch);
        },
        DriverModel::LookAt(m) => {
            lemma_interp_of_bounds(m.smoothness, dt);
            let t = crate::expo::interp_of(m.smoothness, dt);
            let prev = match m.smoothed_target {
                Some(v) => v,
                None => m.target,
            };
            crate::fixed::lemma_lerp(prev.x, m.target.x, t);
            crate::fixed::lemma_lerp(prev.y, m.target.y, t);
            crate::fixed::lemma_lerp(prev.z, m.target.z, t);
            let smoothed = prev.lerp(m.target, t);
            let aimed = if m.predictive {
                crate::drivers::reflect_v(m.target, smoothed)
            } else {
                smoothed
            };
            lemma_look_at_rotation_wf(aimed.sub(parent.translation), parent.rotation);
        },
        DriverModel::Anchor(_) => {},
        DriverModel::Smooth(m) => {
            lemma_interp_of_bounds(m.position_smoothness, dt);
            lemma_interp_of_bounds(m.rotation_smoothness, dt);
            let tp = crate::expo::interp_of(m.position_smoothness, dt);
            let tr = crate::expo::interp_of(m.rotation_smoothness, dt);
            let prev_p = match m.smoothed_position {
                Some(v) => v,
                None => parent.translation,
            };
            crate::fixed::lemma_lerp(prev_p.x, parent.translation.x, tp);
            crate::fixed::lemma_lerp(prev_p.y, parent.translation.y, tp);
            crate::fixed::lemma_lerp(prev_p.z, parent.translation.z, tp);
            let prev_r = match m.smoothed_rotation {
                Some(q) => q,
                None => parent.rotation,
            };
            let o2 = if prev_r.dot(parent.rotation) < 0 {
                parent.rotation.neg()
            } else {
                parent.rotation
            };
            crate::fixed::lemma_lerp(prev_r.x, o2.x, tr);
            crate::fixed::lemma_lerp(prev_r.y, o2.y, tr);
            crate::fixed::lemma_lerp(prev_r.z, o2.z, tr);
            crate::fixed::lemma_lerp(prev_r.w, o2.w, tr);
            let l = Q4 {
                x: crate::fixed::flerp(prev_r.x, o2.x, tr),
                y: crate::fixed::flerp(prev_r.y, o2.y, tr),
                z: crate::fixed::flerp(prev_r.z, o2.z, tr),
                w: crate::fixed::flerp(prev_r.w, o2.w, tr),
            };
            lemma_q_normalize_wf(l);
            lemma_q_normalize_wf(crate::drivers::reflect_q(parent.rotation, l.normalize()));
        },
        DriverModel::Composite(rm) => {
            lemma_fold_wf(rm.drivers, T3::identity(), dt);
        },
    }
}

/// The fold preserves well-formedness, keeps the number of drivers, and
/// emits a well-formed transform.
pub proof fn lemma_fold_wf(ds: Seq<DriverModel>, parent: T3, dt: int)
    requires
        models_wf(ds),
        parent.wf(),
        0 <= dt <= MAX_RAW as int,
    ensures
        models_wf(fold_model(ds, parent, dt).0),
        fold_model(ds, parent, dt).1.wf(),
        fold_model(ds, parent, dt).0.len() == ds.len(),
    decreases ds,
{
    if ds.len() > 0 {
        lemma_fold_wf(ds.drop_last(), parent, dt);
        let (ms, t) = fold_model(ds.drop_last(), parent, dt);
        lemma_driver_step_wf(ds.last(), t, dt);
        let (d2, t2) = driver_step(ds.last(), t, dt);
        assert(ms.push(d2).drop_last() == ms);
    }
}

/// The model of a driver sequence is built pointwise.
pub proof fn lemma_drivers_model_index(s: Seq<Driver>, i: int)
    requires
        0 <= i < s.len(),
    ensures
        drivers_model(s).len() == s.len(),
        drivers_model(s)[i] == driver_model(s[i]),
    decreases s,
{
    lemma_drivers_model_len(s);
    if i < s.len() - 1 {
        lemma_drivers_model_index(s.drop_last(), i);
    }
}

pub proof fn lemma_drivers_model_len(s: Seq<Driver>)
    ensures
        drivers_model(s).len() == s.len(),
    decreases s,
{
    if s.len() > 0 {
        lemma_drivers_model_len(s.drop_last());
    }
}

/// Every element of a well-formed model sequence is well-formed.
pub proof fn lemma_models_wf_index(ds: Seq<DriverModel>, i: int)
    requires
        models_wf(ds),
        0 <= i < ds.len(),
    ensures
        model_wf(ds[i]),
    decreases ds,
{
    if i < ds.len() - 1 {
        lemma_models_wf_index(ds.drop_last(), i);
    }
}

/// Updating one element updates the model pointwise.
pub proof fn lemma_drivers_model_update(s: Seq<Driver>, i: int, d: Driver)
    requires
        0 <= i < s.len(),
    ensures
        drivers_model(s.update(i, d)) == drivers_model(s).update(i, driver_model(d)),
    decreases s,
{
    lemma_drivers_model_len(s);
    lemma_drivers_model_len(s.update(i, d));
    if i < s.len() - 1 {
        lemma_drivers_model_update(s.drop_last(), i, d);
        assert(s.update(i, d).drop_last() =~= s.drop_last().update(i, d));
        assert(s.update(i, d).last() == s.last());
        assert(drivers_model(s.update(i, d)) =~= drivers_model(s).update(i, driver_model(d)));
    } else {
        assert(s.update(i, d).drop_last() =~= s.drop_last());
        assert(s.update(i, d).last() == d);
        assert(drivers_model(s.update(i, d)) =~= drivers_model(s).update(i, driver_model(d)));
    }
}

/// A well-formed model sequence stays well-formed when one element is
/// replaced by a well-formed one.
pub proof fn lemma_models_wf_update(ds: Seq<DriverModel>, i: int, m: DriverModel)
    requires
        models_wf(ds),
        model_wf(m),
        0 <= i < ds.len(),
    ensures
        models_wf(ds.update(i, m)),
    decreases ds,
{
    if ds.len() > 0 {
        if i < ds.len() - 1 {
            lemma_models_wf_update(ds.drop_last(), i, m);
            assert(ds.update(i, m).drop_last() =~= ds.drop_last().update(i, m));
            assert(ds.update(i, m).last() == ds.last());
        } else {
            assert(ds.update(i, m).drop_last() =~= ds.drop_last());
            assert(ds.update(i, m).last() == m);
        }
    }
}

/// Run one driver: emit its output transform for this tick and its next
/// state.
pub fn driver_update(d: Driver, parent: &Transform, dt: i64) -> (r: (Driver, Transform))
    requires
        model_wf(driver_model(d)),
        parent@.wf(),
        0 <= dt <= MAX_RAW,
    ensures
        (driver_model(r.0), r.1@) == driver_step(driver_model(d), parent@, dt as int),
        model_wf(driver_model(r.0)),
        r.1@.wf(),
    decreases d,
{
    proof {
        lemma_driver_step_wf(driver_model(d), parent@, dt as int);
    }
    match d {
        Driver::Position(p) => {
            let t = Transform {
                translation: p.position,
                rotation: parent.rotation,
                scale: parent.scale,
            };
            (Driver::Position(p), t)
        },
        Driver::Rotation(p) => {
            let t = Transform {
                translation: parent.translation,
                rotation: p.rotation,
                scale: parent.scale,
            };
            (Driver::Rotation(p), t)
        },
        Driver::Arm(p) => {
            let t = Transform {
                translation: parent.translation.add(&parent.rotation.rotate(&p.offset)),
                rotation: parent.rotation,
                scale: parent.scale,
            };
            (Driver::Arm(p), t)
        },
        Driver::YawPitch(p) => {
            let t = Transform {
                translation: parent.translation,
                rotation: Quat::from_yaw_pitch(p.yaw_degrees, p.pitch_degrees),
                scale: parent.scale,
            };
            (Driver::YawPitch(p), t)
        },
        Driver::LookAt(p) => {
            let t = interp_f(p.smoothness, dt);
            let prev = match p.smoothed_target {
                Some(v) => v,
                None => p.target,
            };
            let smoothed = prev.lerp(&p.target, t);
            let aimed = if p.predictive {
                reflect_v_f(&p.target, &smoothed)
            } else {
                smoothed
            };
            let dir = aimed.sub(&parent.translation);
            let rotation = Quat::look_at(&dir, &parent.rotation);
            let out = Transform {
                translation: parent.translation,
                rotation,
                scale: parent.scale,
            };
            let next = LookAt { smoothed_target: Some(smoothed), ..p };
            (Driver::LookAt(next), out)
        },
        Driver::Anchor(p) => {
            let t = p.target;
            (Driver::Anchor(p), t)
        },
        Driver::Smooth(p) => {
            let tp = interp_f(p.position_smoothness, dt);
            let tr = interp_f(p.rotation_smoothness, dt);
            let prev_p = match p.smoothed_position {
                Some(v) => v,
                None => parent.translation,
            };
            let sp = prev_p.lerp(&parent.translation, tp);
            let out_p = if p.output_predictive {
                reflect_v_f(&parent.translation, &sp)
            } else {
                sp
            };
            let prev_r = match p.smoothed_rotation {
                Some(q) => q,
                None => parent.rotation,
            };
            let sr = prev_r.nlerp(&parent.rotation, tr);
            let out_r = if p.output_predictive {
                reflect_q_f(&parent.rotation, &sr).normalize()
            } else {
                sr
            };
            let next = Smooth {
                smoothed_position: Some(sp),
                smoothed_rotation: Some(sr),
                ..p
            };
            let out = Transform { translation: out_p, rotation: out_r, scale: parent.scale };
            (Driver::Smooth(next), out)
        },
        Driver::Composite(r) => {
            let (r2, out) = rig_update_from(*r, dt);
            (Driver::Composite(Box::new(r2)), out)
        },
    }
}

/// Run a whole rig for one tick, by value: fold the identity transform
/// through the drivers in order and cache the result.
pub fn rig_update_from(rig: Rig, dt: i64) -> (r: (Rig, Transform))
    requires
        rig_model_wf(rig_model(rig)),
        0 <= dt <= MAX_RAW,
    ensures
        (rig_model(r.0), r.1@) == rig_step(rig_model(rig), dt as int),
        rig_model_wf(rig_model(r.0)),
        r.1@.wf(),
        r.0.final_transform == r.1,
    decreases rig,
{
    let ghost dti = dt as int;
    let mut drivers = rig.drivers;
    let mut cur: Transform = Transform::identity();
    let n = drivers.len();
    let mut i: usize = 0;
    proof {
        lemma_fold_wf(drivers_model(rig.drivers@), T3::identity(), dti);
    }
    while i < n
        invariant
            i <= n,
            n == drivers.len(),
            n == rig.drivers@.len(),
            0 <= dt <= MAX_RAW,
            dti == dt as int,
            drivers@.skip(i as int) == rig.drivers@.skip(i as int),
            models_wf(drivers_model(rig.drivers@)),
            cur@.wf(),
            (drivers_model(drivers@.take(i as int)), cur@) == fold_model(
                drivers_model(rig.drivers@.take(i as int)),
                T3::identity(),
                dti,
            ),
        decreases n - i,
    {
        let ghost pre = drivers@;
        proof {
            assert(pre.skip(i as int)[0] == pre[i as int]);
            assert(rig.drivers@.skip(i as int)[0] == rig.drivers@[i as int]);
            lemma_drivers_model_index(rig.drivers@, i as int);
            lemma_models_wf_index(drivers_model(rig.drivers@), i as int);
        }
        let d = drivers.remove(i);
        let (d2, out) = driver_update(d, &cur, dt);
        drivers.insert(i, d2);
        proof {
            let ii = i as int;
            let all = rig.drivers@;
            assert(drivers@ =~= pre.update(ii, d2));
            assert forall|j: int| 0 <= j < pre.len() - (ii + 1) implies #[trigger] drivers@.skip(
                ii + 1,
            )[j] == all.skip(ii + 1)[j] by {
                assert(drivers@.skip(ii + 1)[j] == pre[j + ii + 1]);
                assert(pre.skip(ii)[j + 1] == pre[j + ii + 1]);
                assert(all.skip(ii)[j + 1] == all[j + ii + 1]);
                assert(all.skip(ii + 1)[j] == all[j + ii + 1]);
            };
            assert(drivers@.skip(ii + 1) =~= all.skip(ii + 1));
            let m_i = driver_model(all[ii]);
            assert(all.take(ii + 1).drop_last() =~= all.take(ii));
            assert(all.take(ii + 1).last() == all[ii]);
            assert(drivers_model(all.take(ii + 1)) == drivers_model(all.take(ii)).push(m_i));
            let ds1 = drivers_model(all.take(ii)).push(m_i);
            assert(ds1.drop_last() =~= drivers_model(all.take(ii)));
            assert(ds1.last() == m_i);
            assert(fold_model(ds1, T3::identity(), dti) == (
                drivers_model(pre.take(ii)).push(driver_step(m_i, cur@, dti).0),
                driver_step(m_i, cur@, dti).1,
            ));
            assert(drivers@.take(ii) =~= pre.take(ii));
            assert(drivers@.take(ii + 1).drop_last() =~= pre.take(ii));
            assert(drivers@.take(ii + 1).last() == d2);
            assert(drivers_model(drivers@.take(ii + 1)) == drivers_model(pre.take(ii)).push(
                driver_model(d2),
            ));
        }
        cur = out;
        i += 1;
    }
    proof {
        assert(drivers@.take(n as int) =~= drivers@);
        assert(rig.drivers@.take(n as int) =~= rig.drivers@);
        lemma_fold_wf(drivers_model(drivers@), T3::identity(), dti);
    }
    (Rig { drivers, final_transform: cur }, cur)
}

impl Rig {
    /// Start building a rig.
    pub fn builder() -> (r: RigBuilder)
        ensures
            drivers_model(r.drivers@) == Seq::<DriverModel>::empty(),
            models_wf(drivers_model(r.drivers@)),
    {
        RigBuilder { drivers: Vec::new() }
    }

    /// Run all the drivers in sequence, animating the rig and producing the
    /// camera's final transform. The rig is approximately framerate
    /// independent, so `update` can be called at any frequency; `delta_time`
    /// is in micro-seconds, and an out-of-range time step is guarded into
    /// `[0, MAX_RAW]` rather than rejected.
    pub fn update(&mut self, delta_time: i64) -> (r: Transform)
        requires
            rig_model_wf(rig_model(*old(self))),
        ensures
            (rig_model(*final(self)), r@) == rig_step(
                rig_model(*old(self)),
                crate::fixed::clamp_nonneg(delta_time as int),
            ),
            rig_model_wf(rig_model(*final(self))),
            r == final(self).final_transform,
            r@.wf(),
    {
        let dt = crate::fixed::clamp_nonneg_f(delta_time);
        let mut tmp = Rig { drivers: Vec::new(), final_transform: Transform::identity() };
        core::mem::swap(self, &mut tmp);
        let (r2, out) = rig_update_from(tmp, dt);
        *self = r2;
        out
    }
}

/// The kinds a driver can have, for lookup by kind.
#[derive(Clone, Copy, Debug, PartialEq, Eq, Structural)]
pub enum DriverKind {
    Position,
    Rotation,
    Arm,
    YawPitch,
    LookAt,
    Anchor,
    Smooth,
    Composite,
}

pub open spec fn kind_of(d: DriverModel) -> DriverKind {
    match d {
        DriverModel::Position(_) => DriverKind::Position,
        DriverModel::Rotation(_) => DriverKind::Rotation,
        DriverModel::Arm(_) => DriverKind::Arm,
        DriverModel::YawPitch(_) => DriverKind::YawPitch,
        DriverModel::LookAt(_) => DriverKind::LookAt,
        DriverModel::Anchor(_) => DriverKind::Anchor,
        DriverModel::Smooth(_) => DriverKind::Smooth,
        DriverModel::Composite(_) => DriverKind::Composite,
    }
}

/// The index of the first driver of the given kind, if any.
pub open spec fn find_kind(ds: Seq<DriverModel>, kind: DriverKind) -> Option<int>
    decreases ds,
{
    if ds.len() == 0 {
        None
    } else if kind_of(ds[0]) == kind {
        Some(0)
    } else {
        match find_kind(ds.drop_first(), kind) {
            None => None,
            Some(i) => Some(i + 1),
        }
    }
}

/// Scanning past a prefix without the kind only shifts the found index.
proof fn lemma_find_kind_skip(ds: Seq<DriverModel>, kind: DriverKind, i: int)
    requires
        0 <= i <= ds.len(),
        forall|j: int| 0 <= j < i ==> kind_of(#[trigger] ds[j]) != kind,
    ensures
        find_kind(ds, kind) == match find_kind(ds.skip(i), kind) {
            None => None::<int>,
            Some(k) => Some(k + i),
        },
    decreases i,
{
    if i == 0 {
        assert(ds.skip(0) =~= ds);
    } else {
        assert(ds.skip(1) =~= ds.drop_first());
        lemma_find_kind_skip(ds.drop_first(), kind, i - 1);
        assert(ds.drop_first().skip(i - 1) =~= ds.skip(i));
    }
}

impl Driver {
    /// The kind of this driver.
    pub fn kind(&self) -> (r: DriverKind)
        ensures
            r == kind_of(driver_model(*self)),
    {
        match self {
            Driver::Position(_) => DriverKind::Position,
            Driver::Rotation(_) => DriverKind::Rotation,
            Driver::Arm(_) => DriverKind::Arm,
            Driver::YawPitch(_) => DriverKind::YawPitch,
            Driver::LookAt(_) => DriverKind::LookAt,
            Driver::Anchor(_) => DriverKind::Anchor,
            Driver::Smooth(_) => DriverKind::Smooth,
            Driver::Composite(_) => DriverKind::Composite,
        }
    }
}

impl Rig {
    /// The position of the first driver of the given kind in the chain, or
    /// nothing when no driver of that kind is present.
    pub fn driver_index(&self, kind: DriverKind) -> (r: Option<usize>)
        ensures
            ({
                let ms = drivers_model(self.drivers@);
                match r {
                    Some(i) => find_kind(ms, kind) == Some(i as int) && i < self.drivers@.len()
                        && kind_of(ms[i as int]) == kind,
                    None => find_kind(ms, kind) == None::<int>,
                }
            }),
    {
        let ghost ms = drivers_model(self.drivers@);
        proof {
            lemma_drivers_model_len(self.drivers@);
        }
        let n = self.drivers.len();
        let mut i: usize = 0;
        while i < n
            invariant
                i <= n,
                n == self.drivers@.len(),
                ms == drivers_model(self.drivers@),
                ms.len() == n,
                forall|j: int| 0 <= j < i ==> kind_of(#[trigger] ms[j]) != kind,
            decreases n - i,
        {
            proof {
                lemma_drivers_model_index(self.drivers@, i as int);
            }
            let k = self.drivers[i].kind();
            if k == kind {
                proof {
                    lemma_find_kind_skip(ms, kind, i as int);
                    assert(ms.skip(i as int)[0] == ms[i as int]);
                }
                return Some(i);
            }
            i += 1;
        }
        proof {
            lemma_find_kind_skip(ms, kind, n as int);
            assert(ms.skip(n as int) =~= Seq::<DriverModel>::empty());
        }
        None
    }
}

impl Rig {
    /// Point the first position driver at a new target. Returns whether one
    /// was found; the rest of the chain is untouched.
    pub fn set_position_target(&mut self, position: Vec3) -> (r: bool)
        requires
            rig_model_wf(rig_model(*old(self))),
            position@.wf(),
        ensures
            ({
                let ms = drivers_model(old(self).drivers@);
                match find_kind(ms, DriverKind::Position) {
                    None => *final(self) == *old(self) && !r,
                    Some(i) => r && drivers_model(final(self).drivers@) == ms.update(
                        i,
                        DriverModel::Position(PositionM { position: position@ }),
                    ) && final(self).final_transform == old(self).final_transform,
                }
            }),
            rig_model_wf(rig_model(*final(self))),
    {
        let idx = self.driver_index(DriverKind::Position);
        match idx {
            None => false,
            Some(i) => {
                let ghost pre = self.drivers@;
                proof {
                    lemma_drivers_model_index(pre, i as int);
                }
                let d = self.drivers.remove(i);
                let d2 = match d {
                    Driver::Position(_) => Driver::Position(Position { position }),
                    other => other,
                };
                self.drivers.insert(i, d2);
                proof {
                    assert(self.drivers@ =~= pre.update(i as int, d2));
                    lemma_drivers_model_update(pre, i as int, d2);
                    lemma_models_wf_update(drivers_model(pre), i as int, driver_model(d2));
                }
                true
            },
        }
    }

    /// Replace the target of the first rotation driver.
    pub fn set_rotation_target(&mut self, rotation: Quat) -> (r: bool)
        requires
            rig_model_wf(rig_model(*old(self))),
            rotation@.wf(),
        ensures
            ({
                let ms = drivers_model(old(self).drivers@);
                match find_kind(ms, DriverKind::Rotation) {
                    None => *final(self) == *old(self) && !r,
                    Some(i) => r && drivers_model(final(self).drivers@) == ms.update(
                        i,
                        DriverModel::Rotation(RotationM { rotation: rotation@ }),
                    ) && final(self).final_transform == old(self).final_transform,
                }
            }),
            rig_model_wf(rig_model(*final(self))),
    {
        let idx = self.driver_index(DriverKind::Rotation);
        match idx {
            None => false,
            Some(i) => {
                let ghost pre = self.drivers@;
                proof {
                    lemma_drivers_model_index(pre, i as int);
                }
                let d = self.drivers.remove(i);
                let d2 = match d {
                    Driver::Rotation(_) => Driver::Rotation(Rotation { rotation }),
                    other => other,
                };
                self.drivers.insert(i, d2);
                proof {
                    assert(self.drivers@ =~= pre.update(i as int, d2));
                    lemma_drivers_model_update(pre, i as int, d2);
                    lemma_models_wf_update(drivers_model(pre), i as int, driver_model(d2));
                }
                true
            },
        }
    }

    /// Replace the offset of the first arm driver.
    pub fn set_arm_offset(&mut self, offset: Vec3) -> (r: bool)
        requires
            rig_model_wf(rig_model(*old(self))),
            offset@.wf(),
        ensures
            ({
                let ms = drivers_model(old(self).drivers@);
                match find_kind(ms, DriverKind::Arm) {
                    None => *final(self) == *old(self) && !r,
                    Some(i) => r && drivers_model(final(self).drivers@) == ms.update(
                        i,
                        DriverModel::Arm(ArmM { offset: offset@ }),
                    ) && final(self).final_transform == old(self).final_transform,
                }
            }),
            rig_model_wf(rig_model(*final(self))),
    {
        let idx = self.driver_index(DriverKind::Arm);
        match idx {
            None => false,
            Some(i) => {
                let ghost pre = self.drivers@;
                proof {
                    lemma_drivers_model_index(pre, i as int);
                }
                let d = self.drivers.remove(i);
                let d2 = match d {
                    Driver::Arm(_) => Driver::Arm(Arm { offset }),
                    other => other,
                };
                self.drivers.insert(i, d2);
                proof {
                    assert(self.drivers@ =~= pre.update(i as int, d2));
                    lemma_drivers_model_update(pre, i as int, d2);
                    lemma_models_wf_update(drivers_model(pre), i as int, driver_model(d2));
                }
                true
            },
        }
    }

    /// Additively rotate the first yaw/pitch driver: its yaw wraps modulo two
    /// full turns, its pitch saturates at straight up and down.
    pub fn rotate_yaw_pitch(&mut self, yaw_degrees: i64, pitch_degrees: i64) -> (r: bool)
        requires
            rig_model_wf(rig_model(*old(self))),
            in_range(yaw_degrees as int),
            in_range(pitch_degrees as int),
        ensures
            ({
                let ms = drivers_model(old(self).drivers@);
                match find_kind(ms, DriverKind::YawPitch) {
                    None => *final(self) == *old(self) && !r,
                    Some(i) => r && drivers_model(final(self).drivers@) == ms.update(
                        i,
                        DriverModel::YawPitch(
                            crate::drivers::YawPitchM {
                                yaw: crate::drivers::wrap_yaw(
                                    ms[i]->YawPitch_0.yaw + yaw_degrees,
                                ),
                                pitch: crate::drivers::clamp_pitch(
                                    ms[i]->YawPitch_0.pitch + pitch_degrees,
                                ),
                            },
                        ),
                    ) && final(self).final_transform == old(self).final_transform,
                }
            }),
            rig_model_wf(rig_model(*final(self))),
    {
        let idx = self.driver_index(DriverKind::YawPitch);
        match idx {
            None => false,
            Some(i) => {
                let ghost pre = self.drivers@;
                proof {
                    lemma_drivers_model_index(pre, i as int);
                    lemma_models_wf_index(drivers_model(pre), i as int);
                }
                let d = self.drivers.remove(i);
                let d2 = match d {
                    Driver::YawPitch(mut p) => {
                        p.rotate_yaw_pitch(yaw_degrees, pitch_degrees);
                        Driver::YawPitch(p)
                    },
                    other => other,
                };
                self.drivers.insert(i, d2);
                proof {
                    assert(self.drivers@ =~= pre.update(i as int, d2));
                    lemma_drivers_model_update(pre, i as int, d2);
                    lemma_models_wf_update(drivers_model(pre), i as int, driver_model(d2));
                }
                true
            },
        }
    }

    /// Point the first look-at driver at a new world-space target.
    pub fn set_look_at_target(&mut self, target: Vec3) -> (r: bool)
        requires
            rig_model_wf(rig_model(*old(self))),
            target@.wf(),
        ensures
            ({
                let ms = drivers_model(old(self).drivers@);
                match find_kind(ms, DriverKind::LookAt) {
                    None => *final(self) == *old(self) && !r,
                    Some(i) => r && drivers_model(final(self).drivers@) == ms.update(
                        i,
                        DriverModel::LookAt(
                            crate::drivers::LookAtM { target: target@, ..ms[i]->LookAt_0 },
                        ),
                    ) && final(self).final_transform == old(self).final_transform,
                }
            }),
            rig_model_wf(rig_model(*final(self))),
    {
        let idx = self.driver_index(DriverKind::LookAt);
        match idx {
            None => false,
            Some(i) => {
                let ghost pre = self.drivers@;
                proof {
                    lemma_drivers_model_index(pre, i as int);
                    lemma_models_wf_index(drivers_model(pre), i as int);
                }
                let d = self.drivers.remove(i);
                let d2 = match d {
                    Driver::LookAt(p) => Driver::LookAt(LookAt { target, ..p }),
                    other => other,
                };
                self.drivers.insert(i, d2);
                proof {
                    assert(self.drivers@ =~= pre.update(i as int, d2));
                    lemma_drivers_model_update(pre, i as int, d2);
                    lemma_models_wf_update(drivers_model(pre), i as int, driver_model(d2));
                }
                true
            },
        }
    }

    /// Replace the transform copied in by the first anchor driver.
    pub fn set_anchor_target(&mut self, target: Transform) -> (r: bool)
        requires
            rig_model_wf(rig_model(*old(self))),
            target@.wf(),
        ensures
            ({
                let ms = drivers_model(old(self).drivers@);
                match find_kind(ms, DriverKind::Anchor) {
                    None => *final(self) == *old(self) && !r,
                    Some(i) => r && drivers_model(final(self).drivers@) == ms.update(
                        i,
                        DriverModel::Anchor(AnchorM { target: target@ }),
                    ) && final(self).final_transform == old(self).final_transform,
                }
            }),
            rig_model_wf(rig_model(*final(self))),
    {
        let idx = self.driver_index(DriverKind::Anchor);
        match idx {
            None => false,
            Some(i) => {
                let ghost pre = self.drivers@;
                proof {
                    lemma_drivers_model_index(pre, i as int);
                }
                let d = self.drivers.remove(i);
                let d2 = match d {
                    Driver::Anchor(_) => Driver::Anchor(Anchor { target }),
                    other => other,
                };
                self.drivers.insert(i, d2);
                proof {
                    assert(self.drivers@ =~= pre.update(i as int, d2));
                    lemma_drivers_model_update(pre, i as int, d2);
                    lemma_models_wf_update(drivers_model(pre), i as int, driver_model(d2));
                }
                true
            },
        }
    }

    /// Append a driver to the end of the chain, keeping the cached
    /// transform; the order of the existing drivers is unchanged.
    pub fn add(self, driver: Driver) -> (r: Rig)
        ensures
            drivers_model(r.drivers@) == drivers_model(self.drivers@).push(driver_model(driver)),
            r.final_transform == self.final_transform,
    {
        let mut drivers = self.drivers;
        drivers.push(driver);
        proof {
            assert(drivers@.drop_last() =~= self.drivers@);
            assert(drivers@.last() == driver);
        }
        Rig { drivers, final_transform: self.final_transform }
    }

    /// The target of the first position driver, if one is present.
    pub fn position_target(&self) -> (r: Option<Vec3>)
        ensures
            ({
                let ms = drivers_model(self.drivers@);
                match r {
                    Some(v) => find_kind(ms, DriverKind::Position) matches Some(i) && ms[i]
                        == DriverModel::Position(PositionM { position: v@ }) && (rig_model_wf(
                        rig_model(*self),
                    ) ==> v@.wf()),
                    None => find_kind(ms, DriverKind::Position) == None::<int>,
                }
            }),
    {
        let idx = self.driver_index(DriverKind::Position);
        match idx {
            None => None,
            Some(i) => {
                proof {
                    lemma_drivers_model_index(self.drivers@, i as int);
                    if rig_model_wf(rig_model(*self)) {
                        lemma_models_wf_index(drivers_model(self.drivers@), i as int);
                    }
                }
                match &self.drivers[i] {
                    Driver::Position(p) => Some(p.position),
                    _ => None,
                }
            },
        }
    }

    /// The yaw and pitch of the first yaw/pitch driver, in micro-degrees.
    pub fn yaw_pitch(&self) -> (r: Option<(i64, i64)>)
        ensures
            ({
                let ms = drivers_model(self.drivers@);
                match r {
                    Some(v) => find_kind(ms, DriverKind::YawPitch) matches Some(i) && ms[i]
                        == DriverModel::YawPitch(
                        crate::drivers::YawPitchM { yaw: v.0 as int, pitch: v.1 as int },
                    ),
                    None => find_kind(ms, DriverKind::YawPitch) == None::<int>,
                }
            }),
    {
        let idx = self.driver_index(DriverKind::YawPitch);
        match idx {
            None => None,
            Some(i) => {
                proof {
                    lemma_drivers_model_index(self.drivers@, i as int);
                }
                match &self.drivers[i] {
                    Driver::YawPitch(p) => Some((p.yaw_degrees, p.pitch_degrees)),
                    _ => None,
                }
            },
        }
    }

    /// The target of the first look-at driver, if one is present.
    pub fn look_at_target(&self) -> (r: Option<Vec3>)
        ensures
            ({
                let ms = drivers_model(self.drivers@);
                match r {
                    Some(v) => find_kind(ms, DriverKind::LookAt) matches Some(i)
                        && ms[i]->LookAt_0.target == v@,
                    None => find_kind(ms, DriverKind::LookAt) == None::<int>,
                }
            }),
    {
        let idx = self.driver_index(DriverKind::LookAt);
        match idx {
            None => None,
            Some(i) => {
                proof {
                    lemma_drivers_model_index(self.drivers@, i as int);
                }
                match &self.drivers[i] {
                    Driver::LookAt(p) => Some(p.target),
                    _ => None,
                }
            },
        }
    }
}

/// Accumulates drivers in call order, then finalizes them into a rig.
pub struct RigBuilder {
    pub drivers: Vec<Driver>,
}

impl RigBuilder {
    /// Append a driver; drivers run in the order they were added.
    pub fn with(self, driver: Driver) -> (r: RigBuilder)
        ensures
            drivers_model(r.drivers@) == drivers_model(self.drivers@).push(driver_model(driver)),
    {
        let mut drivers = self.drivers;
        drivers.push(driver);
        proof {
            assert(drivers@.drop_last() =~= self.drivers@);
            assert(drivers@.last() == driver);
        }
        RigBuilder { drivers }
    }

    /// Finalize the chain and run one zero-time update, so the rig carries a
    /// valid final transform before its first real tick.
    pub fn build(self) -> (r: Rig)
        requires
            models_wf(drivers_model(self.drivers@)),
        ensures
            rig_model(r) == rig_step(
                RigModel {
                    drivers: drivers_model(self.drivers@),
                    final_transform: T3::identity(),
                },
                0,
            ).0,
            rig_model_wf(rig_model(r)),
    {
        let rig = Rig { drivers: self.drivers, final_transform: Transform::identity() };
        let (r2, _) = rig_update_from(rig, 0);
        r2
    }

    /// Finalize the chain, first pre-populating the first position lock and
    /// the first rotation lock from the given seed transform, then running
    /// the zero-time update: the explicit way to start a rig from a host
    /// object's current pose.
    pub fn build_with_seed(self, seed: Transform) -> (r: Rig)
        requires
            models_wf(drivers_model(self.drivers@)),
            seed@.wf(),
        ensures
            ({
                let ms0 = drivers_model(self.drivers@);
                let ms1 = match find_kind(ms0, DriverKind::Position) {
                    None => ms0,
                    Some(i) => ms0.update(
                        i,
                        DriverModel::Position(PositionM { position: seed@.translation }),
                    ),
                };
                let ms2 = match find_kind(ms1, DriverKind::Rotation) {
                    None => ms1,
                    Some(i) => ms1.update(
                        i,
                        DriverModel::Rotation(RotationM { rotation: seed@.rotation }),
                    ),
                };
                rig_model(r) == rig_step(
                    RigModel { drivers: ms2, final_transform: T3::identity() },
                    0,
                ).0
            }),
            rig_model_wf(rig_model(r)),
    {
        let mut rig = Rig { drivers: self.drivers, final_transform: Transform::identity() };
        let _seeded_position = rig.set_position_target(seed.translation);
        let _seeded_rotation = rig.set_rotation_target(seed.rotation);
        let (r2, _) = rig_update_from(rig, 0);
        r2
    }
}

} // verus!
