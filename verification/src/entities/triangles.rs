//! Triangles, sharing the quad's exact planar intersection.

use crate::aabox::{aabbox_wf, spec_enclose, t_range_wf, AABBox, TRange};
use crate::entities::quadrilateral::{
    clamp_q, clamp_q_exec, half_sum, lemma_patch_bounds, spec_add, spec_alpha_num, spec_beta_num,
    spec_edge_normal, spec_half_sum, spec_plane_t, spec_point_box, Quad,
};
use crate::entities::PRIM_BOUND;
use crate::hittable::HitRecord;
use crate::material::DynMaterial;
use crate::vec3::{in_bounds, ray_wf, spec_dot, spec_ray_at, Point3, Ray, Vec3, Q};
use vstd::prelude::*;

verus! {

/// A triangle: corner `q` and edge vectors `u`, `v`; the chart test accepts
/// where the coordinates sum to at most one.
#[derive(Debug, Clone, Copy, PartialEq, Eq, Structural)]
pub struct Triangle {
    pub q: Point3,
    pub u: Vec3,
    pub v: Vec3,
    pub normal: Vec3,
    pub mat: DynMaterial,
    pub aabbox: AABBox,
}

/// The triangle's box: the padded enclosure of its midpoint and corners.
pub open spec fn spec_triangle_box(q: Point3, u: Vec3, v: Vec3) -> AABBox {
    let mid = spec_add(q, spec_half_sum(u, v));
    spec_enclose(
        spec_enclose(spec_enclose(spec_point_box(mid), spec_point_box(q)), spec_point_box(spec_add(q, v))),
        spec_point_box(spec_add(q, u)),
    )
}

/// What `Triangle::new` builds.
pub open spec fn spec_triangle_new(q: Point3, u: Vec3, v: Vec3, mat: DynMaterial) -> Triangle {
    Triangle { q, u, v, normal: spec_edge_normal(u, v), mat, aabbox: spec_triangle_box(q, u, v) }
}

pub open spec fn triangle_wf(t: Triangle) -> bool {
    &&& in_bounds(t.q, PRIM_BOUND as int)
    &&& in_bounds(t.u, PRIM_BOUND as int)
    &&& in_bounds(t.v, PRIM_BOUND as int)
    &&& t.normal == spec_edge_normal(t.u, t.v)
    &&& t.normal != (Vec3 { x: 0, y: 0, z: 0 })
    &&& t.aabbox == spec_triangle_box(t.q, t.u, t.v)
    &&& aabbox_wf(t.aabbox)
}

/// View of the triangle as a quad for the shared chart arithmetic.
pub open spec fn spec_as_quad(t: Triangle) -> Quad {
    Quad { q: t.q, u: t.u, v: t.v, normal: t.normal, mat: t.mat, aabbox: t.aabbox }
}

/// The exact triangle intersection: meet the supporting plane inside the
/// range, then accept exactly when the chart coordinates sum into `[0, 1]`.
pub open spec fn spec_triangle_hit(t: Triangle, r: Ray, range: TRange) -> Option<HitRecord> {
    match spec_plane_t(t.q, t.normal, r) {
        None => None,
        Some(tt) => {
            if !crate::hittable::t_in_range(tt, range) {
                None
            } else {
                let p = spec_ray_at(r, tt);
                let den = spec_dot(t.normal, t.normal);
                let alpha = spec_alpha_num(t.q, t.v, t.normal, p);
                let beta = spec_beta_num(t.q, t.u, t.normal, p);
                if 0 <= alpha + beta <= den {
                    Some(
                        crate::hittable::spec_hit_record(
                            r,
                            tt as i128,
                            t.normal,
                            clamp_q((alpha * Q) / den),
                            clamp_q((beta * Q) / den),
                            t.mat,
                        ),
                    )
                } else {
                    None
                }
            }
        },
    }
}

impl Triangle {
    pub fn new(q: Point3, u: Vec3, v: Vec3, mat: DynMaterial) -> (r: Triangle)
        requires
            in_bounds(q, PRIM_BOUND as int),
            in_bounds(u, PRIM_BOUND as int),
            in_bounds(v, PRIM_BOUND as int),
            spec_edge_normal(u, v) != (Vec3 { x: 0, y: 0, z: 0 }),
        ensures
            r == spec_triangle_new(q, u, v, mat),
            triangle_wf(r),
    {
        let normal = u.cross(v);
        let half = half_sum(u, v);
        let mid = q.add(half);
        let aabbox = AABBox::from_point(mid).enclose(&AABBox::from_point(q)).enclose(
            &AABBox::from_point(q.add(v)),
        ).enclose(&AABBox::from_point(q.add(u)));
        Triangle { q, u, v, normal, mat, aabbox }
    }

    pub fn get_aabbox(&self) -> (b: AABBox)
        requires
            triangle_wf(*self),
        ensures
            b == self.aabbox,
            aabbox_wf(b),
    {
        self.aabbox
    }

    /// The intersection test; see [`spec_triangle_hit`].
    pub fn hit(&self, r: &Ray, range: TRange) -> (res: Option<HitRecord>)
        requires
            triangle_wf(*self),
            ray_wf(*r),
            t_range_wf(range),
        ensures
            res == spec_triangle_hit(*self, *r, range),
    {
        let n = self.normal;
        proof {
            lemma_patch_bounds(spec_as_quad(*self), *r);
        }
        let denom = r.get_direction().dot(n);
        if denom == 0 {
            return None;
        }
        let oq = self.q.sub(r.get_origin());
        proof {
            crate::vec3::lemma_dot_bound2(oq, n, 0x10000000, 0x100000000000);
        }
        let t = crate::num::t_div(oq.dot(n), denom);
        if !(range.start <= t && t <= range.end) {
            return None;
        }
        let p = r.at(t);
        let pq = p.sub(self.q);
        let den = n.dot(n);
        let cv = pq.cross(self.v);
        let cu = self.u.cross(pq);
        proof {
            crate::vec3::lemma_cross_bound(pq, self.v, 0x10000000, PRIM_BOUND as int);
            crate::vec3::lemma_cross_bound(self.u, pq, PRIM_BOUND as int, 0x10000000);
            crate::vec3::lemma_dot_bound2(cv, n, 0x4000000000000, 0x100000000000);
            crate::vec3::lemma_dot_bound2(cu, n, 0x4000000000000, 0x100000000000);
        }
        let alpha = cv.dot(n);
        let beta = cu.dot(n);
        if 0 <= alpha + beta && alpha + beta <= den {
            proof {
                crate::vec3::lemma_prod_bound2(alpha as int, Q as int, 0x1000000000000000000000000, 0x10000);
                crate::vec3::lemma_prod_bound2(beta as int, Q as int, 0x1000000000000000000000000, 0x10000);
            }
            let uq = clamp_q_exec(crate::num::div_floor(alpha * (Q as i128), den));
            let vq = clamp_q_exec(crate::num::div_floor(beta * (Q as i128), den));
            Some(HitRecord::new(r, t, n, uq, vq, self.mat))
        } else {
            None
        }
    }
}

} // verus!

verus! {

impl Triangle {
    /// The light-sampling density toward this triangle; its area is half the
    /// edge cross product's length.
    pub fn pdf_value(&self, origin: Point3, direction: Vec3) -> (r: i64)
        requires
            triangle_wf(*self),
            crate::vec3::in_bounds(origin, crate::vec3::VEC_BOUND as int),
            crate::vec3::in_bounds(direction, crate::vec3::VEC_BOUND as int),
        ensures
            r == crate::entities::quadrilateral::spec_patch_pdf(
                spec_as_quad(*self),
                origin,
                direction,
                spec_triangle_hit(*self, Ray { origin, direction }, crate::entities::sphere::spec_pdf_range()),
                2,
            ),
            0 <= r <= 0x10000000000,
    {
        let ray = Ray::new(origin, direction);
        let range = TRange { start: 1, end: 0x400000000000000 };
        let h = self.hit(&ray, range);
        let qview = Quad {
            q: self.q,
            u: self.u,
            v: self.v,
            normal: self.normal,
            mat: self.mat,
            aabbox: self.aabbox,
        };
        crate::entities::quadrilateral::patch_pdf(
            &qview,
            origin,
            direction,
            h,
            2,
            Ghost(spec_triangle_hit(*self, Ray { origin, direction }, crate::entities::sphere::spec_pdf_range())),
        )
    }

    /// A direction from `origin` toward a random point of the triangle.
    /// Every outcome aims at a point of the triangular half of the patch,
    /// as [`is_triangle_sample`] describes it.
    pub fn random(&self, origin: Point3, rng: &mut rand::rngs::SmallRng) -> (r: Vec3)
        requires
            triangle_wf(*self),
            crate::vec3::in_bounds(origin, crate::vec3::VEC_BOUND as int),
        ensures
            crate::vec3::in_bounds(r, crate::vec3::VEC_BOUND as int),
            is_triangle_sample(*self, origin, r),
    {
        let mut r1 = crate::rng::random_q(rng);
        let mut r2 = crate::rng::random_q(rng);
        if r1 + r2 > Q {
            r1 = Q - r1;
            r2 = Q - r2;
        }
        crate::entities::quadrilateral::random_patch_point(self.q, self.u, self.v, r1, r2, origin)
    }
}

/// `dir` aims at some point of the triangle: surface parameters nonnegative
/// with sum at most one, the half of the parallelogram the triangle covers.
pub open spec fn is_triangle_sample(t: Triangle, origin: Point3, dir: Vec3) -> bool {
    exists|a: int, b: int|
        0 <= a && 0 <= b && a + b <= Q as int
            && #[trigger] crate::entities::quadrilateral::is_patch_sample(
            t.q,
            t.u,
            t.v,
            origin,
            dir,
            a,
            b,
        )
}

} // verus!
