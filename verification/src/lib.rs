//! A Monte-Carlo path tracer core built on exact integer geometry.
//!
//! Scene coordinates are integers ("units"; the caller picks how many units
//! make one world unit), the ray parameter is a binary fixed-point number,
//! and every geometric decision (bounding-box slab test, primitive
//! intersection, partitioning) is computed exactly over those integers.
//! This makes the bounding-volume hierarchy provably return the same
//! nearest hit as a linear scan of the scene.

pub mod aabox;
pub mod aaplane;
pub mod bvh;
pub mod camera;
pub mod colour;
pub mod entities;
pub mod hittable;
pub mod hittable_list;
pub mod material;
pub mod num;
pub mod onb;
pub mod pdf;
pub mod rng;
pub mod utils;
pub mod vec3;

use vstd::prelude::*;

verus! {

} // verus!
