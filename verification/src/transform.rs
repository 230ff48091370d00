//! The transform value type threaded through the pipeline.

use vstd::prelude::*;
use crate::fixed::UNIT;
use crate::vec3::{V3, Vec3};
use crate::quat::{Q4, Quat};

verus! {

/// Mathematical model of a transform.
pub ghost struct T3 {
    pub translation: V3,
    pub rotation: Q4,
    pub scale: V3,
}

impl T3 {
    pub open spec fn wf(self) -> bool {
        self.translation.wf() && self.rotation.wf() && self.scale.wf()
    }

    /// Identity: zero translation, identity rotation, unit scale.
    pub open spec fn identity() -> T3 {
        T3 {
            translation: V3::zero(),
            rotation: Q4::identity(),
            scale: V3 { x: UNIT as int, y: UNIT as int, z: UNIT as int },
        }
    }
}

/// A transform: translation, rotation and scale. Most drivers leave the
/// scale alone.
#[derive(Clone, Copy, Debug, PartialEq, Eq, Structural)]
pub struct Transform {
    pub translation: Vec3,
    pub rotation: Quat,
    pub scale: Vec3,
}

impl View for Transform {
    type V = T3;

    open spec fn view(&self) -> T3 {
        T3 { translation: self.translation@, rotation: self.rotation@, scale: self.scale@ }
    }
}

impl Transform {
    /// The identity transform that seeds every pipeline run.
    pub fn identity() -> (r: Transform)
        ensures
            r@ == T3::identity(),
            r@.wf(),
    {
        Transform {
            translation: Vec3::zero(),
            rotation: Quat::identity(),
            scale: Vec3 { x: UNIT, y: UNIT, z: UNIT },
        }
    }

    /// Assemble a transform from its parts.
    pub fn new(translation: Vec3, rotation: Quat, scale: Vec3) -> (r: Transform)
        requires
            translation@.wf(),
            rotation@.wf(),
            scale@.wf(),
        ensures
            r@ == (T3 { translation: translation@, rotation: rotation@, scale: scale@ }),
            r@.wf(),
    {
        Transform { translation, rotation, scale }
    }

    /// A transform from translation and rotation, with unit scale.
    pub fn from_translation_rotation(translation: Vec3, rotation: Quat) -> (r: Transform)
        requires
            translation@.wf(),
            rotation@.wf(),
        ensures
            r@ == (T3 {
                translation: translation@,
                rotation: rotation@,
                scale: V3 { x: UNIT as int, y: UNIT as int, z: UNIT as int },
            }),
            r@.wf(),
    {
        Transform { translation, rotation, scale: Vec3 { x: UNIT, y: UNIT, z: UNIT } }
    }
}

} // verus!
