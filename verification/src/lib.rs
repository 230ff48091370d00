//! A camera-rig transform pipeline.
//!
//! A rig is an ordered chain of drivers; every tick the rig folds an identity
//! transform through each driver in order and returns the final transform.
//! All coordinates and angles are fixed-point values carrying six fractional
//! decimal digits, so the whole pipeline is exact integer arithmetic.

pub mod drivers;
pub mod expo;
pub mod fixed;
pub mod follow;
pub mod fps;
pub mod fpv;
pub mod laws;
pub mod map;
pub mod quat;
pub mod rig;
pub mod transform;
pub mod trig;
pub mod vec3;

use vstd::prelude::*;

verus! {

} // verus!
