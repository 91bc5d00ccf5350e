//! Small helpers: a plain slice-like container of primitives, and the
//! rejection samplers for random directions.

use crate::aabox::{aabbox_wf, t_range_wf, AABBox, TRange};
use crate::entities::{primitive_wf, Primitive};
use crate::hittable::HitRecord;
use crate::hittable_list::{spec_linear_hit, spec_seq_box};
use crate::num::sqrt_floor;
use crate::vec3::{in_bounds, ray_wf, spec_dot, Ray, Vec3, Q};
use vstd::prelude::*;

verus! {

/// A flat run of primitives sharing the bounding/intersection interface of
/// the richer containers.
#[derive(Debug)]
pub struct Slice {
    pub values: Vec<Primitive>,
}

pub open spec fn slice_wf(s: Slice) -> bool {
    forall|i: int| 0 <= i < s.values@.len() ==> primitive_wf(#[trigger] s.values@[i])
}

impl Slice {
    pub fn new(values: Vec<Primitive>) -> (s: Slice)
        requires
            forall|i: int| 0 <= i < values@.len() ==> primitive_wf(#[trigger] values@[i]),
        ensures
            s.values@ == values@,
            slice_wf(s),
    {
        Slice { values }
    }

    /// The union of the contained boxes. Never called on an empty slice.
    pub fn get_aabbox(&self) -> (b: AABBox)
        requires
            slice_wf(*self),
            self.values@.len() > 0,
        ensures
            b == spec_seq_box(self.values@),
            aabbox_wf(b),
    {
        crate::hittable_list::seq_box(&self.values)
    }

    /// The nearest box-checked hit over the contents, earlier entries winning
    /// ties.
    pub fn hit(&self, r: &Ray, range: TRange) -> (res: Option<HitRecord>)
        requires
            slice_wf(*self),
            ray_wf(*r),
            t_range_wf(range),
        ensures
            res == spec_linear_hit(self.values@, *r, range),
    {
        let mut acc: Option<HitRecord> = None;
        let mut i: usize = 0;
        proof {
            assert(self.values@.take(0) =~= Seq::<Primitive>::empty());
        }
        while i < self.values.len()
            invariant
                slice_wf(*self),
                ray_wf(*r),
                t_range_wf(range),
                0 <= i <= self.values@.len(),
                acc == spec_linear_hit(self.values@.take(i as int), *r, range),
            decreases self.values@.len() - i,
        {
            let h = self.values[i].bounded_hit(r, range);
            proof {
                assert(self.values@.take(i as int + 1).drop_last() =~= self.values@.take(i as int));
            }
            acc = crate::hittable::nearer(acc, h);
            i = i + 1;
        }
        proof {
            assert(self.values@.take(self.values@.len() as int) =~= self.values@);
        }
        acc
    }
}

/// Rejection sampling of a point in the closed unit ball, `Q`-scaled; after
/// a bounded number of misses it falls back to a unit axis vector, which
/// also lies in the ball.
pub struct UnitSphere;

impl UnitSphere {
    pub fn sample(&self, rng: &mut rand::rngs::SmallRng) -> (v: Vec3)
        ensures
            in_bounds(v, Q as int),
            spec_dot(v, v) <= Q * Q,
    {
        let mut tries: u32 = 0;
        while tries < 64
            invariant
                tries <= 64,
            decreases 64 - tries,
        {
            let x = crate::rng::random_symmetric_q(rng);
            let y = crate::rng::random_symmetric_q(rng);
            let z = crate::rng::random_symmetric_q(rng);
            let v = Vec3 { x, y, z };
            proof {
                crate::vec3::lemma_dot_bound(v, v, Q as int);
            }
            if v.dot(v) < (Q as i128) * (Q as i128) {
                return v;
            }
            tries = tries + 1;
        }
        proof {
            assert(spec_dot(Vec3 { x: Q, y: 0, z: 0 }, Vec3 { x: Q, y: 0, z: 0 }) == Q * Q);
        }
        Vec3 { x: Q, y: 0, z: 0 }
    }
}

/// Rejection sampling of a point in the closed unit disk in the `xz` plane,
/// `Q`-scaled.
pub struct UnitDisk;

impl UnitDisk {
    pub fn sample(&self, rng: &mut rand::rngs::SmallRng) -> (v: Vec3)
        ensures
            in_bounds(v, Q as int),
            v.y == 0,
            spec_dot(v, v) <= Q * Q,
    {
        let mut tries: u32 = 0;
        while tries < 64
            invariant
                tries <= 64,
            decreases 64 - tries,
        {
            let x = crate::rng::random_symmetric_q(rng);
            let z = crate::rng::random_symmetric_q(rng);
            let v = Vec3 { x, y: 0, z };
            proof {
                crate::vec3::lemma_dot_bound(v, v, Q as int);
            }
            if v.dot(v) < (Q as i128) * (Q as i128) {
                return v;
            }
            tries = tries + 1;
        }
        proof {
            assert(spec_dot(Vec3 { x: Q, y: 0, z: 0 }, Vec3 { x: Q, y: 0, z: 0 }) == Q * Q);
        }
        Vec3 { x: Q, y: 0, z: 0 }
    }
}

/// A cosine-weighted direction over the upper hemisphere: a uniform disk
/// point lifted onto the sphere, so the density of the polar angle is
/// proportional to its cosine.
pub struct CosineWeightedHemisphere;

impl CosineWeightedHemisphere {
    pub fn sample(&self, rng: &mut rand::rngs::SmallRng) -> (v: Vec3)
        ensures
            in_bounds(v, Q as int),
            v.z >= 0,
            v.z == sqrt_floor(Q * Q - (v.x * v.x + v.y * v.y)),
    {
        let d = UnitDisk.sample(rng);
        let x = d.x;
        let y = d.z;
        proof {
            crate::vec3::lemma_prod_bound(x as int, x as int, Q as int);
            crate::vec3::lemma_prod_bound(y as int, y as int, Q as int);
            assert(x * x >= 0 && y * y >= 0) by (nonlinear_arith);
        }
        let rest = (Q as i128) * (Q as i128) - (x as i128) * (x as i128) - (y as i128) * (y
            as i128);
        let zr = crate::num::isqrt(rest as u128);
        proof {
            crate::num::lemma_sqrt_le(rest as int, zr as int, Q as int);
        }
        let z = zr as i64;
        Vec3 { x, y, z }
    }
}

} // verus!
