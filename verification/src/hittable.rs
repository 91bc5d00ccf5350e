//! The hit-record protocol shared by every primitive and container.

use crate::aabox::TRange;
use crate::material::DynMaterial;
use crate::vec3::{in_bounds, ray_wf, spec_dot, Point3, Ray, Vec3};
use vstd::prelude::*;

verus! {

/// Magnitude bound for outward normals handed to [`HitRecord::new`]; large
/// enough for the cross products of quad edges.
pub const NORMAL_BOUND: i64 = 0x100000000000; // 2^44

/// Magnitude bound for the fixed-point `t` of a hit.
pub const HIT_T_BOUND: i128 = 0x1000000000000000000; // 2^72

/// The result of a successful ray-primitive intersection.
#[derive(Debug, Clone, Copy, PartialEq, Eq, Structural)]
pub struct HitRecord {
    /// The hit point, rounded to the unit grid.
    pub p: Point3,
    /// The surface normal, flipped to face the incoming ray; integer scale,
    /// not normalized.
    pub normal: Vec3,
    /// The ray parameter of the hit, `T_SCALE`-scaled.
    pub t: i128,
    /// Surface parameters, `Q`-scaled.
    pub u: i64,
    pub v: i64,
    /// Whether the ray struck the side the outward normal points away from.
    pub front_face: bool,
    /// The material of the surface that was hit.
    pub mat: DynMaterial,
}

/// What `HitRecord::new` builds: the hit point from the ray, the normal
/// flipped against the ray direction.
pub open spec fn spec_hit_record(
    r: Ray,
    t: i128,
    outward_normal: Vec3,
    u: i64,
    v: i64,
    mat: DynMaterial,
) -> HitRecord {
    let front_face = spec_dot(r.direction, outward_normal) < 0;
    HitRecord {
        p: crate::vec3::spec_ray_at(r, t as int),
        normal: if front_face {
            outward_normal
        } else {
            Vec3 {
                x: (-outward_normal.x) as i64,
                y: (-outward_normal.y) as i64,
                z: (-outward_normal.z) as i64,
            }
        },
        t,
        u,
        v,
        front_face,
        mat,
    }
}

impl HitRecord {
    /// Build a record at parameter `t`: the point comes from the ray, and the
    /// stored normal is the outward normal flipped, if need be, to oppose
    /// the incoming direction.
    pub fn new(r: &Ray, t: i128, outward_normal: Vec3, u: i64, v: i64, mat: DynMaterial) -> (rec:
        HitRecord)
        requires
            ray_wf(*r),
            in_bounds(outward_normal, NORMAL_BOUND as int),
            -HIT_T_BOUND <= t <= HIT_T_BOUND,
        ensures
            rec == spec_hit_record(*r, t, outward_normal, u, v, mat),
    {
        let p = r.at(t);
        let d = r.get_direction();
        proof {
            crate::vec3::lemma_prod_bound(d.x as int, outward_normal.x as int, NORMAL_BOUND as int);
            crate::vec3::lemma_prod_bound(d.y as int, outward_normal.y as int, NORMAL_BOUND as int);
            crate::vec3::lemma_prod_bound(d.z as int, outward_normal.z as int, NORMAL_BOUND as int);
        }
        let dp = (d.x as i128) * (outward_normal.x as i128) + (d.y as i128) * (outward_normal.y
            as i128) + (d.z as i128) * (outward_normal.z as i128);
        let front_face = dp < 0;
        let normal = if front_face {
            outward_normal
        } else {
            Vec3 { x: -outward_normal.x, y: -outward_normal.y, z: -outward_normal.z }
        };
        HitRecord { p, normal, t, u, v, front_face, mat }
    }

    pub fn get_p(&self) -> (r: Point3)
        ensures
            r == self.p,
    {
        self.p
    }

    pub fn get_normal(&self) -> (r: Vec3)
        ensures
            r == self.normal,
    {
        self.normal
    }

    pub fn get_t(&self) -> (r: i128)
        ensures
            r == self.t,
    {
        self.t
    }

    pub fn get_u(&self) -> (r: i64)
        ensures
            r == self.u,
    {
        self.u
    }

    pub fn get_v(&self) -> (r: i64)
        ensures
            r == self.v,
    {
        self.v
    }

    pub fn is_front_face(&self) -> (r: bool)
        ensures
            r == self.front_face,
    {
        self.front_face
    }

    pub fn get_material(&self) -> (r: DynMaterial)
        ensures
            r == self.mat,
    {
        self.mat
    }
}

/// Of two optional hits, the one with the strictly smaller `t`; the first
/// wins ties, matching a left-to-right minimum scan.
pub open spec fn spec_nearer(a: Option<HitRecord>, b: Option<HitRecord>) -> Option<HitRecord> {
    match (a, b) {
        (None, None) => None,
        (Some(x), None) => Some(x),
        (None, Some(y)) => Some(y),
        (Some(x), Some(y)) => if y.t < x.t {
            Some(y)
        } else {
            Some(x)
        },
    }
}

/// Pick the nearer of two optional hits, first argument winning ties.
pub fn nearer(a: Option<HitRecord>, b: Option<HitRecord>) -> (r: Option<HitRecord>)
    ensures
        r == spec_nearer(a, b),
{
    match (a, b) {
        (None, None) => None,
        (Some(x), None) => Some(x),
        (None, Some(y)) => Some(y),
        (Some(x), Some(y)) => if y.t < x.t {
            Some(y)
        } else {
            Some(x)
        },
    }
}

/// `t` lies within the inclusive query range.
pub open spec fn t_in_range(t: int, range: TRange) -> bool {
    range.start <= t <= range.end
}

} // verus!
