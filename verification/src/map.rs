//! Hand-over types between a host engine and the rig.
//!
//! A host hands transforms over as raw fixed-point components, not yet
//! guarded into range; converting them yields a well-formed [`Transform`]
//! that the rig's drivers accept.

use vstd::prelude::*;
use crate::fixed::clamped;
use crate::vec3::{V3, Vec3};
use crate::quat::{Q4, Quat, q_clamped};
use crate::transform::{T3, Transform};

verus! {

/// A transform as a host engine hands it over: raw fixed-point components
/// (six fractional decimal digits), not yet guarded into range.
#[derive(Clone, Copy, Debug, PartialEq, Eq, Structural)]
pub struct DollyTransform {
    pub tx: i64,
    pub ty: i64,
    pub tz: i64,
    pub rx: i64,
    pub ry: i64,
    pub rz: i64,
    pub rw: i64,
    pub sx: i64,
    pub sy: i64,
    pub sz: i64,
}

/// The well-formed transform that a raw hand-over value stands for: every
/// coordinate clamped into the scalar range and every rotation component
/// into the stored-rotation bound.
pub open spec fn guarded_transform(d: DollyTransform) -> T3 {
    T3 {
        translation: V3 {
            x: clamped(d.tx as int),
            y: clamped(d.ty as int),
            z: clamped(d.tz as int),
        },
        rotation: Q4 {
            x: q_clamped(d.rx as int),
            y: q_clamped(d.ry as int),
            z: q_clamped(d.rz as int),
            w: q_clamped(d.rw as int),
        },
        scale: V3 {
            x: clamped(d.sx as int),
            y: clamped(d.sy as int),
            z: clamped(d.sz as int),
        },
    }
}

/// Conversion of a borrowed hand-over value into a rig transform.
pub trait Transform2Dolly: Sized {
    /// The well-formed transform this value stands for.
    spec fn dolly_view(&self) -> T3;

    fn transform_2_dolly(&self) -> (r: Transform)
        ensures
            r@ == self.dolly_view(),
            r@.wf(),
    ;
}

/// Conversion from behind a mutable borrow, for hosts that only expose their
/// transforms mutably; the value itself is left unchanged.
pub trait Transform2DollyMut: Sized {
    /// The well-formed transform this value stands for.
    spec fn dolly_view_mut(&self) -> T3;

    fn transform_2_dolly_mut(&mut self) -> (r: Transform)
        ensures
            r@ == old(self).dolly_view_mut(),
            r@.wf(),
            *final(self) == *old(self),
    ;
}

impl DollyTransform {
    /// Package raw translation, rotation and scale components.
    pub fn new(t: &Vec3, r: &Quat, s: &Vec3) -> (d: DollyTransform)
        ensures
            d == (DollyTransform {
                tx: t.x,
                ty: t.y,
                tz: t.z,
                rx: r.x,
                ry: r.y,
                rz: r.z,
                rw: r.w,
                sx: s.x,
                sy: s.y,
                sz: s.z,
            }),
    {
        DollyTransform {
            tx: t.x,
            ty: t.y,
            tz: t.z,
            rx: r.x,
            ry: r.y,
            rz: r.z,
            rw: r.w,
            sx: s.x,
            sy: s.y,
            sz: s.z,
        }
    }

    /// The raw components of a rig transform, for handing back to a host.
    pub fn from_transform(t: &Transform) -> (d: DollyTransform)
        ensures
            d == (DollyTransform {
                tx: t.translation.x,
                ty: t.translation.y,
                tz: t.translation.z,
                rx: t.rotation.x,
                ry: t.rotation.y,
                rz: t.rotation.z,
                rw: t.rotation.w,
                sx: t.scale.x,
                sy: t.scale.y,
                sz: t.scale.z,
            }),
    {
        DollyTransform::new(&t.translation, &t.rotation, &t.scale)
    }
}

impl Transform2Dolly for DollyTransform {
    open spec fn dolly_view(&self) -> T3 {
        guarded_transform(*self)
    }

    fn transform_2_dolly(&self) -> (r: Transform) {
        Transform::new(
            Vec3::new(self.tx, self.ty, self.tz),
            Quat::new(self.rx, self.ry, self.rz, self.rw),
            Vec3::new(self.sx, self.sy, self.sz),
        )
    }
}

impl Transform2DollyMut for DollyTransform {
    open spec fn dolly_view_mut(&self) -> T3 {
        guarded_transform(*self)
    }

    fn transform_2_dolly_mut(&mut self) -> (r: Transform) {
        Transform::new(
            Vec3::new(self.tx, self.ty, self.tz),
            Quat::new(self.rx, self.ry, self.rz, self.rw),
            Vec3::new(self.sx, self.sy, self.sz),
        )
    }
}

} // verus!
