//! Infinite planes, hit from the side the normal points away from.

use crate::aabox::{aabbox_wf, t_range_wf, AABBox, TRange, PAD};
use crate::entities::PRIM_BOUND;
use crate::hittable::HitRecord;
use crate::material::DynMaterial;
use crate::num::spec_t_of;
use crate::vec3::{
    in_bounds, lemma_dot_bound2, ray_wf, spec_dot, spec_ray_at, Point3, Ray, Vec3, Q, VEC_BOUND,
};
use vstd::prelude::*;

verus! {

/// An infinite plane through `point` with the given (unnormalized) normal.
#[derive(Debug, Clone, Copy, PartialEq, Eq, Structural)]
pub struct Plane {
    pub point: Point3,
    pub normal: Vec3,
    pub mat: DynMaterial,
}

pub open spec fn plane_wf(p: Plane) -> bool {
    &&& in_bounds(p.point, PRIM_BOUND as int)
    &&& in_bounds(p.normal, PRIM_BOUND as int)
    &&& p.normal != (Vec3 { x: 0, y: 0, z: 0 })
}

/// The plane's box: the full world interval on every axis the plane spans,
/// and a thin padded interval at the plane's coordinate on an axis the
/// normal is exactly aligned with.
pub open spec fn spec_plane_box(p: Plane) -> AABBox {
    AABBox {
        x_min: if p.normal.y == 0 && p.normal.z == 0 {
            (p.point.x - PAD) as i64
        } else {
            (-VEC_BOUND) as i64
        },
        x_max: if p.normal.y == 0 && p.normal.z == 0 {
            (p.point.x + PAD) as i64
        } else {
            VEC_BOUND
        },
        y_min: if p.normal.x == 0 && p.normal.z == 0 {
            (p.point.y - PAD) as i64
        } else {
            (-VEC_BOUND) as i64
        },
        y_max: if p.normal.x == 0 && p.normal.z == 0 {
            (p.point.y + PAD) as i64
        } else {
            VEC_BOUND
        },
        z_min: if p.normal.x == 0 && p.normal.y == 0 {
            (p.point.z - PAD) as i64
        } else {
            (-VEC_BOUND) as i64
        },
        z_max: if p.normal.x == 0 && p.normal.y == 0 {
            (p.point.z + PAD) as i64
        } else {
            VEC_BOUND
        },
    }
}

/// Planar surface parameters: the fractional unit-cell coordinates of the
/// hit point on the two axes spanning the plane's dominant direction.
pub open spec fn spec_plane_uv_axes(n: Vec3) -> (crate::aaplane::Axis, crate::aaplane::Axis) {
    let ax = if n.x >= n.y && n.x >= n.z {
        crate::aaplane::Axis::X
    } else if n.y >= n.z {
        crate::aaplane::Axis::Y
    } else {
        crate::aaplane::Axis::Z
    };
    match ax {
        crate::aaplane::Axis::X => (crate::aaplane::Axis::Y, crate::aaplane::Axis::Z),
        crate::aaplane::Axis::Y => (crate::aaplane::Axis::X, crate::aaplane::Axis::Z),
        crate::aaplane::Axis::Z => (crate::aaplane::Axis::X, crate::aaplane::Axis::Y),
    }
}

/// The exact plane intersection: one-sided, as in a floor seen from above;
/// the ray hits only where its direction runs with the normal.
pub open spec fn spec_plane_hit(pl: Plane, r: Ray, range: TRange) -> Option<HitRecord> {
    let denom = spec_dot(r.direction, pl.normal);
    if denom <= 0 {
        None
    } else {
        let op = Vec3 {
            x: (pl.point.x - r.origin.x) as i64,
            y: (pl.point.y - r.origin.y) as i64,
            z: (pl.point.z - r.origin.z) as i64,
        };
        let t = spec_t_of(spec_dot(op, pl.normal), denom);
        if !crate::hittable::t_in_range(t, range) {
            None
        } else {
            let p = spec_ray_at(r, t);
            let axes = spec_plane_uv_axes(pl.normal);
            let u = crate::vec3::spec_axis(p, axes.0) as int % (Q as int);
            let v = crate::vec3::spec_axis(p, axes.1) as int % (Q as int);
            Some(
                crate::hittable::spec_hit_record(r, t as i128, pl.normal, u as i64, v as i64, pl.mat),
            )
        }
    }
}

impl Plane {
    pub fn new(point: Point3, normal: Vec3, mat: DynMaterial) -> (r: Plane)
        requires
            in_bounds(point, PRIM_BOUND as int),
            in_bounds(normal, PRIM_BOUND as int),
            normal != (Vec3 { x: 0, y: 0, z: 0 }),
        ensures
            r == (Plane { point, normal, mat }),
            plane_wf(r),
    {
        Plane { point, normal, mat }
    }

    pub fn get_aabbox(&self) -> (b: AABBox)
        requires
            plane_wf(*self),
        ensures
            b == spec_plane_box(*self),
            aabbox_wf(b),
    {
        let thin_x = self.normal.y == 0 && self.normal.z == 0;
        let thin_y = self.normal.x == 0 && self.normal.z == 0;
        let thin_z = self.normal.x == 0 && self.normal.y == 0;
        AABBox {
            x_min: if thin_x {
                self.point.x - PAD
            } else {
                -VEC_BOUND
            },
            x_max: if thin_x {
                self.point.x + PAD
            } else {
                VEC_BOUND
            },
            y_min: if thin_y {
                self.point.y - PAD
            } else {
                -VEC_BOUND
            },
            y_max: if thin_y {
                self.point.y + PAD
            } else {
                VEC_BOUND
            },
            z_min: if thin_z {
                self.point.z - PAD
            } else {
                -VEC_BOUND
            },
            z_max: if thin_z {
                self.point.z + PAD
            } else {
                VEC_BOUND
            },
        }
    }

    /// The intersection test; see [`spec_plane_hit`].
    pub fn hit(&self, r: &Ray, range: TRange) -> (res: Option<HitRecord>)
        requires
            plane_wf(*self),
            ray_wf(*r),
            t_range_wf(range),
        ensures
            res == spec_plane_hit(*self, *r, range),
    {
        let n = self.normal;
        proof {
            lemma_dot_bound2(r.direction, n, VEC_BOUND as int, PRIM_BOUND as int);
        }
        let denom = r.get_direction().dot(n);
        if denom <= 0 {
            return None;
        }
        let op = self.point.sub(r.get_origin());
        proof {
            lemma_dot_bound2(op, n, 0x10000000, PRIM_BOUND as int);
        }
        let t = crate::num::t_div(op.dot(n), denom);
        if !(range.start <= t && t <= range.end) {
            return None;
        }
        let p = r.at(t);
        let axes = plane_uv_axes(n);
        let u = mod_q(p.axis(axes.0));
        let v = mod_q(p.axis(axes.1));
        Some(HitRecord::new(r, t, n, u, v, self.mat))
    }
}

/// The two axes spanning the plane, chosen against the dominant normal axis.
fn plane_uv_axes(n: Vec3) -> (r: (crate::aaplane::Axis, crate::aaplane::Axis))
    ensures
        r == spec_plane_uv_axes(n),
{
    let ax = if n.x >= n.y && n.x >= n.z {
        crate::aaplane::Axis::X
    } else if n.y >= n.z {
        crate::aaplane::Axis::Y
    } else {
        crate::aaplane::Axis::Z
    };
    match ax {
        crate::aaplane::Axis::X => (crate::aaplane::Axis::Y, crate::aaplane::Axis::Z),
        crate::aaplane::Axis::Y => (crate::aaplane::Axis::X, crate::aaplane::Axis::Z),
        crate::aaplane::Axis::Z => (crate::aaplane::Axis::X, crate::aaplane::Axis::Y),
    }
}

/// The nonnegative remainder of a coordinate modulo `Q`: its position inside
/// the unit cell.
fn mod_q(x: i64) -> (r: i64)
    requires
        -VEC_BOUND <= x <= VEC_BOUND,
    ensures
        r as int == (x as int) % (Q as int),
        0 <= r < Q,
{
    let q = crate::num::div_floor(x as i128, Q as i128);
    let m = (x as i128) - q * (Q as i128);
    proof {
        vstd::arithmetic::div_mod::lemma_fundamental_div_mod(x as int, Q as int);
        vstd::arithmetic::div_mod::lemma_mod_bound(x as int, Q as int);
    }
    m as i64
}

} // verus!
