//! Spheres, with an exact integer quadratic intersection test.

use crate::aabox::{aabbox_wf, t_range_wf, AABBox, TRange};
use crate::entities::PRIM_BOUND;
use crate::hittable::{t_in_range, HitRecord};
use crate::material::DynMaterial;
use crate::num::{is_sqrt_floor, spec_t_of, sqrt_floor};
use crate::vec3::{
    in_bounds, lemma_dot_bound, lemma_prod_bound, lemma_prod_bound2, ray_wf, spec_dot, spec_ray_at,
    Point3, Ray, Vec3, Q,
};
use vstd::prelude::*;

verus! {

/// A sphere: center, radius (in units), material, and its cached box.
#[derive(Debug, Clone, PartialEq, Eq, Structural)]
pub struct Sphere {
    pub center: Point3,
    pub radius: i64,
    pub mat: DynMaterial,
    pub aabox: AABBox,
}

/// The box `[center - radius, center + radius]` on every axis.
pub open spec fn spec_sphere_box(center: Point3, radius: i64) -> AABBox {
    AABBox {
        x_min: (center.x - radius) as i64,
        x_max: (center.x + radius) as i64,
        y_min: (center.y - radius) as i64,
        y_max: (center.y + radius) as i64,
        z_min: (center.z - radius) as i64,
        z_max: (center.z + radius) as i64,
    }
}

pub open spec fn sphere_wf(s: Sphere) -> bool {
    &&& in_bounds(s.center, PRIM_BOUND as int)
    &&& 0 < s.radius <= PRIM_BOUND
    &&& s.aabox == spec_sphere_box(s.center, s.radius)
    &&& aabbox_wf(s.aabox)
}

/// Clamp a `Q`-scaled surface parameter into `[0, Q]`.
pub open spec fn clamp_q(v: int) -> i64 {
    if v < 0 {
        0
    } else if v > Q as int {
        Q
    } else {
        v as i64
    }
}

/// Surface parameters of a sphere hit: the outward normal's `x` and `y`
/// components mapped linearly from `[-radius, radius]` onto `[0, 1]`. A
/// rational chart of the sphere; richer texture mappings live outside the
/// verified core.
pub open spec fn spec_sphere_u(outward: Vec3, radius: i64) -> i64 {
    clamp_q(((outward.x + radius) * Q) / (2 * radius as int))
}

pub open spec fn spec_sphere_v(outward: Vec3, radius: i64) -> i64 {
    clamp_q(((outward.y + radius) * Q) / (2 * radius as int))
}

/// The record a sphere builds for a hit at parameter `t`.
pub open spec fn spec_sphere_record(s: Sphere, r: Ray, t: i128) -> HitRecord {
    let p = spec_ray_at(r, t as int);
    let outward = Vec3 {
        x: (p.x - s.center.x) as i64,
        y: (p.y - s.center.y) as i64,
        z: (p.z - s.center.z) as i64,
    };
    crate::hittable::spec_hit_record(
        r,
        t,
        outward,
        spec_sphere_u(outward, s.radius),
        spec_sphere_v(outward, s.radius),
        s.mat,
    )
}

/// The exact intersection test: solve `|o + d * t - c|^2 == radius^2` for
/// the nearest root of the quadratic whose rounded parameter lies in range;
/// a non-positive discriminant, or a degenerate direction, is a miss.
pub open spec fn spec_sphere_hit(s: Sphere, r: Ray, range: TRange) -> Option<HitRecord> {
    let oc = Vec3 {
        x: (r.origin.x - s.center.x) as i64,
        y: (r.origin.y - s.center.y) as i64,
        z: (r.origin.z - s.center.z) as i64,
    };
    let a = spec_dot(r.direction, r.direction);
    let hb = spec_dot(r.direction, oc);
    let c = spec_dot(oc, oc) - s.radius * s.radius;
    let disc = hb * hb - a * c;
    if a == 0 || disc <= 0 {
        None
    } else {
        let sq = sqrt_floor(disc);
        let root1 = spec_t_of(-hb - sq, a);
        let root2 = spec_t_of(-hb + sq, a);
        if t_in_range(root1, range) {
            Some(spec_sphere_record(s, r, root1 as i128))
        } else if t_in_range(root2, range) {
            Some(spec_sphere_record(s, r, root2 as i128))
        } else {
            None
        }
    }
}

impl Sphere {
    pub fn new(center: Point3, radius: i64, mat: DynMaterial) -> (s: Sphere)
        requires
            in_bounds(center, PRIM_BOUND as int),
            0 < radius <= PRIM_BOUND,
        ensures
            s.center == center,
            s.radius == radius,
            s.mat == mat,
            sphere_wf(s),
    {
        let aabox = AABBox {
            x_min: center.x - radius,
            x_max: center.x + radius,
            y_min: center.y - radius,
            y_max: center.y + radius,
            z_min: center.z - radius,
            z_max: center.z + radius,
        };
        Sphere { center, radius, mat, aabox }
    }

    pub fn get_aabbox(&self) -> (b: AABBox)
        requires
            sphere_wf(*self),
        ensures
            b == self.aabox,
            aabbox_wf(b),
    {
        self.aabox
    }

    /// The intersection test; see [`spec_sphere_hit`].
    pub fn hit(&self, r: &Ray, range: TRange) -> (res: Option<HitRecord>)
        requires
            sphere_wf(*self),
            ray_wf(*r),
            t_range_wf(range),
        ensures
            res == spec_sphere_hit(*self, *r, range),
    {
        let oc = r.get_origin().sub(self.center);
        let d = r.get_direction();
        let a = d.square_length();
        let hb = d.dot(oc);
        proof {
            lemma_dot_bound(d, d, 0x8000000);
            lemma_dot_bound(d, oc, 0x10000000);
            lemma_dot_bound(oc, oc, 0x10000000);
            lemma_prod_bound(self.radius as int, self.radius as int, PRIM_BOUND as int);
        }
        let c = oc.square_length() - (self.radius as i128) * (self.radius as i128);
        proof {
            lemma_prod_bound(hb as int, hb as int, 0x400000000000000);
            lemma_prod_bound(a as int, c as int, 0x400000000000000);
        }
        let disc = hb * hb - a * c;
        if a == 0 || disc <= 0 {
            return None;
        }
        let sq = crate::num::isqrt(disc as u128) as i128;
        let root1 = crate::num::t_div(-hb - sq, a);
        let root2 = crate::num::t_div(-hb + sq, a);
        let t = if range.start <= root1 && root1 <= range.end {
            root1
        } else if range.start <= root2 && root2 <= range.end {
            root2
        } else {
            return None;
        };
        Some(self.make_record(r, t))
    }

    /// Build the hit record at parameter `t`.
    fn make_record(&self, r: &Ray, t: i128) -> (rec: HitRecord)
        requires
            sphere_wf(*self),
            ray_wf(*r),
            -crate::hittable::HIT_T_BOUND <= t <= crate::hittable::HIT_T_BOUND,
        ensures
            rec == spec_sphere_record(*self, *r, t),
    {
        let p = r.at(t);
        let outward = p.sub(self.center);
        let two_r = 2 * (self.radius as i128);
        proof {
            lemma_prod_bound2((outward.x + self.radius) as int, Q as int, 0x20000000, 0x10000);
            lemma_prod_bound2((outward.y + self.radius) as int, Q as int, 0x20000000, 0x10000);
        }
        let u_raw = crate::num::div_floor(((outward.x as i128) + (self.radius as i128)) * (Q
            as i128), two_r);
        let v_raw = crate::num::div_floor(((outward.y as i128) + (self.radius as i128)) * (Q
            as i128), two_r);
        let u = clamp_q_exec(u_raw);
        let v = clamp_q_exec(v_raw);
        HitRecord::new(r, t, outward, u, v, self.mat)
    }
}

fn clamp_q_exec(v: i128) -> (r: i64)
    requires
        -0x40000000000000000000000000000000 <= v <= 0x40000000000000000000000000000000,
    ensures
        r == clamp_q(v as int),
{
    if v < 0 {
        0
    } else if v > Q as i128 {
        Q
    } else {
        v as i64
    }
}

} // verus!

verus! {

/// Query range used for density evaluation: from just above zero out to the
/// world horizon.
pub open spec fn spec_pdf_range() -> TRange {
    TRange { start: 1, end: 0x400000000000000 }
}

/// The density of directions from `origin` that a sphere light subtends:
/// zero where the ray misses; else the reciprocal of the solid angle of the
/// visible cap, all in `Q`-scaled fixed point with floor divisions.
pub open spec fn spec_sphere_pdf(s: Sphere, origin: Point3, direction: Vec3) -> i64 {
    if spec_sphere_hit(s, Ray { origin, direction }, spec_pdf_range()) is None {
        0
    } else {
        let oc = Vec3 {
            x: (s.center.x - origin.x) as i64,
            y: (s.center.y - origin.y) as i64,
            z: (s.center.z - origin.z) as i64,
        };
        let d2 = spec_dot(oc, oc);
        if d2 <= s.radius * s.radius {
            0
        } else {
            let inner = ((d2 - s.radius * s.radius) * (Q * Q)) / d2;
            let ctm = crate::num::sqrt_floor(inner);
            let solid = (2 * crate::entities::PI_Q * (Q - ctm)) / (Q as int);
            if solid <= 0 {
                0
            } else {
                clamp_q_wide((Q * Q) / solid)
            }
        }
    }
}

/// Clamp a wide fixed-point value into the colour range.
pub open spec fn clamp_q_wide(v: int) -> i64 {
    if v < 0 {
        0
    } else if v > 0x10000000000 {
        0x10000000000
    } else {
        v as i64
    }
}

impl Sphere {
    /// The light-sampling density toward this sphere; see [`spec_sphere_pdf`].
    pub fn pdf_value(&self, origin: Point3, direction: Vec3) -> (r: i64)
        requires
            sphere_wf(*self),
            in_bounds(origin, crate::vec3::VEC_BOUND as int),
            in_bounds(direction, crate::vec3::VEC_BOUND as int),
        ensures
            r == spec_sphere_pdf(*self, origin, direction),
            0 <= r <= 0x10000000000,
    {
        let ray = Ray::new(origin, direction);
        let range = TRange { start: 1, end: 0x400000000000000 };
        if self.hit(&ray, range).is_none() {
            return 0;
        }
        let oc = self.center.sub(origin);
        proof {
            lemma_dot_bound(oc, oc, 0x10000000);
            lemma_prod_bound(self.radius as int, self.radius as int, PRIM_BOUND as int);
        }
        let d2 = oc.dot(oc);
        let r2 = (self.radius as i128) * (self.radius as i128);
        if d2 <= r2 {
            return 0;
        }
        proof {
            assert((d2 - r2) * 4294967296int <= 0x100000000000000000000000000
                && 0 <= (d2 - r2) * 4294967296int && (d2 - r2) * 4294967296int <= d2
                * 4294967296int) by (nonlinear_arith)
                requires
                    0 < d2 - r2 <= d2 <= 0x1000000000000000,
            ;
        }
        let q2: i128 = 4294967296;
        let inner = crate::num::div_floor((d2 - r2) * q2, d2);
        proof {
            vstd::arithmetic::div_mod::lemma_div_pos_is_pos((d2 - r2) * 4294967296int, d2 as int);
            vstd::arithmetic::div_mod::lemma_multiply_divide_le(
                (d2 - r2) * 4294967296int,
                d2 as int,
                4294967296int,
            );
        }
        let ctm_r = crate::num::isqrt(inner as u128);
        proof {
            crate::num::lemma_sqrt_le(inner as int, ctm_r as int, Q as int);
        }
        let ctm = ctm_r as i128;
        let solid = crate::num::div_floor(
            2 * (crate::entities::PI_Q as i128) * ((Q as i128) - ctm),
            Q as i128,
        );
        if solid <= 0 {
            return 0;
        }
        let v = crate::num::div_floor((Q as i128) * (Q as i128), solid);
        clamp_pdf(v)
    }

    /// A direction from `origin` toward a random point of the ball: the
    /// center offset jittered by a scaled unit-ball sample. Every outcome is
    /// a sample of this sphere as [`is_sphere_sample`] describes it.
    pub fn random(&self, origin: Point3, rng: &mut rand::rngs::SmallRng) -> (r: Vec3)
        requires
            sphere_wf(*self),
            in_bounds(origin, crate::vec3::VEC_BOUND as int),
        ensures
            in_bounds(r, crate::vec3::VEC_BOUND as int),
            is_sphere_sample(*self, origin, r),
    {
        let u = crate::utils::UnitSphere.sample(rng);
        proof {
            lemma_prod_bound2(u.x as int, self.radius as int, Q as int, PRIM_BOUND as int);
            lemma_prod_bound2(u.y as int, self.radius as int, Q as int, PRIM_BOUND as int);
            lemma_prod_bound2(u.z as int, self.radius as int, Q as int, PRIM_BOUND as int);
            lemma_prod_bound2(u.x as int, self.radius as int, Q as int, self.radius as int);
            lemma_prod_bound2(u.y as int, self.radius as int, Q as int, self.radius as int);
            lemma_prod_bound2(u.z as int, self.radius as int, Q as int, self.radius as int);
        }
        let scaled = u.scale(self.radius);
        let jx = crate::num::div_floor(scaled.x as i128, Q as i128);
        let jy = crate::num::div_floor(scaled.y as i128, Q as i128);
        let jz = crate::num::div_floor(scaled.z as i128, Q as i128);
        proof {
            lemma_jitter_bound(scaled.x as int);
            lemma_jitter_bound(scaled.y as int);
            lemma_jitter_bound(scaled.z as int);
            lemma_jitter_within_radius(scaled.x as int, self.radius as int);
            lemma_jitter_within_radius(scaled.y as int, self.radius as int);
            lemma_jitter_within_radius(scaled.z as int, self.radius as int);
        }
        let x = clamp_dir((self.center.x as i128) - (origin.x as i128) + jx);
        let y = clamp_dir((self.center.y as i128) - (origin.y as i128) + jy);
        let z = clamp_dir((self.center.z as i128) - (origin.z as i128) + jz);
        let r = Vec3 { x, y, z };
        proof {
            let j = Vec3 { x: jx as i64, y: jy as i64, z: jz as i64 };
            assert(in_bounds(j, self.radius as int));
            assert(r.x == crate::vec3::clamp_coord(self.center.x - origin.x + j.x));
        }
        r
    }
}

/// `dir` is a direction this sphere's sampler can hand back from `origin`:
/// the offset to the center, moved by at most the radius on each component,
/// clamped into the world bound.
pub open spec fn is_sphere_sample(s: Sphere, origin: Point3, dir: Vec3) -> bool {
    exists|j: Vec3|
        {
            &&& #[trigger] in_bounds(j, s.radius as int)
            &&& dir.x == crate::vec3::clamp_coord(s.center.x - origin.x + j.x)
            &&& dir.y == crate::vec3::clamp_coord(s.center.y - origin.y + j.y)
            &&& dir.z == crate::vec3::clamp_coord(s.center.z - origin.z + j.z)
        }
}

/// A `Q`-scaled product of a unit-interval factor and the radius divides
/// back to at most the radius.
proof fn lemma_jitter_within_radius(c: int, rad: int)
    requires
        0 < rad,
        -(Q as int) * rad <= c <= (Q as int) * rad,
    ensures
        -rad <= c / (Q as int) <= rad,
{
    assert(-((Q as int) * rad) == -(Q as int) * rad) by (nonlinear_arith);
    vstd::arithmetic::div_mod::lemma_div_is_ordered(c, (Q as int) * rad, Q as int);
    vstd::arithmetic::div_mod::lemma_div_is_ordered(-((Q as int) * rad), c, Q as int);
    assert(((Q as int) * rad) / (Q as int) == rad) by {
        vstd::arithmetic::div_mod::lemma_div_multiples_vanish(rad, Q as int);
    }
    assert((-((Q as int) * rad)) / (Q as int) == -rad) by {
        vstd::arithmetic::div_mod::lemma_div_multiples_vanish(-rad, Q as int);
        assert(-((Q as int) * rad) == (Q as int) * (-rad)) by (nonlinear_arith);
    }
}

/// Head-on exactness: a ray aimed straight at the sphere's center from
/// outside, with a direction of exact integer length `dist`, hits at the
/// fixed-point floor of `(dist - radius) / dist` -- one grid step below the
/// exact head-on distance.
pub proof fn lemma_head_on_hit_exact(s: Sphere, o: Point3, dist: int, range: TRange)
    requires
        sphere_wf(s),
        in_bounds(o, crate::vec3::VEC_BOUND as int),
        0 < dist <= 0x10000000,
        s.radius < dist,
        ({
            let d = Vec3 {
                x: (s.center.x - o.x) as i64,
                y: (s.center.y - o.y) as i64,
                z: (s.center.z - o.z) as i64,
            };
            spec_dot(d, d) == dist * dist
        }),
        range.start == 1,
        range.end >= (dist - s.radius) * crate::vec3::T_SCALE,
    ensures
        ({
            let d = Vec3 {
                x: (s.center.x - o.x) as i64,
                y: (s.center.y - o.y) as i64,
                z: (s.center.z - o.z) as i64,
            };
            let hit = spec_sphere_hit(s, Ray { origin: o, direction: d }, range);
            &&& hit is Some
            &&& hit.unwrap().t == ((dist - s.radius) * crate::vec3::T_SCALE) / dist
        }),
{
    let d = Vec3 {
        x: (s.center.x - o.x) as i64,
        y: (s.center.y - o.y) as i64,
        z: (s.center.z - o.z) as i64,
    };
    let r = Ray { origin: o, direction: d };
    let oc = Vec3 {
        x: (r.origin.x - s.center.x) as i64,
        y: (r.origin.y - s.center.y) as i64,
        z: (r.origin.z - s.center.z) as i64,
    };
    let rad = s.radius as int;
    let sc = crate::vec3::T_SCALE as int;
    // The offset used by the intersection test is the exact negation of the
    // direction, so the quadratic's coefficients collapse.
    assert(oc.x == -d.x && oc.y == -d.y && oc.z == -d.z);
    let a = spec_dot(r.direction, r.direction);
    let hb = spec_dot(r.direction, oc);
    let c = spec_dot(oc, oc) - rad * rad;
    assert(a == dist * dist);
    assert(hb == -(dist * dist)) by (nonlinear_arith)
        requires
            oc.x == -d.x && oc.y == -d.y && oc.z == -d.z,
            hb == d.x * oc.x + d.y * oc.y + d.z * oc.z,
            d.x * d.x + d.y * d.y + d.z * d.z == dist * dist,
    ;
    assert(spec_dot(oc, oc) == dist * dist) by (nonlinear_arith)
        requires
            oc.x == -d.x && oc.y == -d.y && oc.z == -d.z,
            d.x * d.x + d.y * d.y + d.z * d.z == dist * dist,
    ;
    let disc = hb * hb - a * c;
    assert(disc == (dist * rad) * (dist * rad)) by (nonlinear_arith)
        requires
            hb == -(dist * dist),
            a == dist * dist,
            c == dist * dist - rad * rad,
            disc == hb * hb - a * c,
    ;
    assert(a != 0 && disc > 0) by (nonlinear_arith)
        requires
            0 < rad < dist,
            a == dist * dist,
            disc == (dist * rad) * (dist * rad),
    ;
    // The discriminant is a perfect square, so its floor root is exact.
    let sq = crate::num::sqrt_floor(disc);
    assert(crate::num::is_sqrt_floor(disc, dist * rad)) by (nonlinear_arith)
        requires
            0 < rad < dist,
            disc == (dist * rad) * (dist * rad),
    ;
    assert(sq == dist * rad) by {
        crate::num::lemma_sqrt_floor_unique(disc, sq, dist * rad);
    }
    // The near root cancels a factor of `dist`.
    let root1 = crate::num::spec_t_of(-hb - sq, a);
    assert(-hb - sq == dist * (dist - rad)) by (nonlinear_arith)
        requires
            hb == -(dist * dist),
            sq == dist * rad,
    ;
    assert(root1 == ((dist - rad) * sc) / dist) by {
        assert(root1 == (dist * (dist - rad) * sc) / (dist * dist));
        assert(dist * (dist - rad) * sc == dist * ((dist - rad) * sc)) by (nonlinear_arith);
        vstd::arithmetic::div_mod::lemma_div_multiples_vanish_quotient(
            dist,
            (dist - rad) * sc,
            dist,
        );
        assert(0 <= (dist - rad) * sc) by (nonlinear_arith)
            requires
                rad < dist,
                sc > 0,
        ;
    }
    // The root lands inside the query range.
    assert(t_in_range(root1, range)) by {
        assert(sc <= (dist - rad) * sc) by (nonlinear_arith)
            requires
                rad < dist,
                sc >= 1,
        ;
        vstd::arithmetic::div_mod::lemma_div_is_ordered(sc, (dist - rad) * sc, dist);
        assert(sc / dist >= 1) by {
            vstd::arithmetic::div_mod::lemma_div_is_ordered(dist, sc, dist);
            vstd::arithmetic::div_mod::lemma_div_by_self(dist);
        }
        assert(root1 <= (dist - rad) * sc) by {
            vstd::arithmetic::div_mod::lemma_div_is_ordered_by_denominator(
                (dist - rad) * sc,
                1,
                dist,
            );
            vstd::arithmetic::div_mod::lemma_div_multiples_vanish((dist - rad) * sc, 1);
            assert(((dist - rad) * sc) * 1 == (dist - rad) * sc) by (nonlinear_arith);
        }
    }
}

/// A radius-scaled unit sample divides down to within the primitive bound.
proof fn lemma_jitter_bound(c: int)
    requires
        -0x2000000000 <= c <= 0x2000000000,  // Q * PRIM_BOUND
    ensures
        -0x200000 <= c / (Q as int) <= 0x200000,
{
    vstd::arithmetic::div_mod::lemma_div_is_ordered(c, 0x2000000000, Q as int);
    vstd::arithmetic::div_mod::lemma_div_is_ordered(-0x2000000000, c, Q as int);
    assert(0x2000000000int / (Q as int) == 0x200000) by {
        vstd::arithmetic::div_mod::lemma_div_multiples_vanish(0x200000, Q as int);
        assert((Q as int) * 0x200000 == 0x2000000000int) by (nonlinear_arith);
    }
    assert((-0x2000000000int) / (Q as int) == -0x200000) by {
        vstd::arithmetic::div_mod::lemma_div_multiples_vanish(-0x200000, Q as int);
        assert((Q as int) * (-0x200000) == -0x2000000000int) by (nonlinear_arith);
    }
}

/// Clamp a direction component into the world bound.
pub(crate) fn clamp_dir(c: i128) -> (r: i64)
    requires
        -crate::num::DIV_BOUND <= c <= crate::num::DIV_BOUND,
    ensures
        r as int == crate::vec3::clamp_coord(c as int),
        -crate::vec3::VEC_BOUND <= r <= crate::vec3::VEC_BOUND,
{
    let lo = -(crate::vec3::VEC_BOUND as i128);
    let hi = crate::vec3::VEC_BOUND as i128;
    if c < lo {
        -crate::vec3::VEC_BOUND
    } else if c > hi {
        crate::vec3::VEC_BOUND
    } else {
        c as i64
    }
}

/// Clamp a wide density value into the representable density range.
pub(crate) fn clamp_pdf(v: i128) -> (r: i64)
    requires
        -crate::num::DIV_BOUND <= v <= crate::num::DIV_BOUND,
    ensures
        r == clamp_q_wide(v as int),
        0 <= r <= 0x10000000000,
{
    if v < 0 {
        0
    } else if v > 0x10000000000 {
        0x10000000000
    } else {
        v as i64
    }
}

} // verus!
