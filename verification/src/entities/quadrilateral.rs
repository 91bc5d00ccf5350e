//! Parallelogram patches ("quads"), intersected exactly.

use crate::aabox::{aabbox_wf, spec_enclose, t_range_wf, AABBox, TRange};
use crate::entities::PRIM_BOUND;
use crate::hittable::HitRecord;
use crate::material::DynMaterial;
use crate::num::spec_t_of;
use crate::vec3::{
    in_bounds, lemma_dot_bound, lemma_prod_bound, ray_wf, spec_cross_x, spec_cross_y, spec_cross_z,
    spec_dot, spec_ray_at, Point3, Ray, Vec3, Q,
};
use vstd::prelude::*;

verus! {

/// A parallelogram: corner `q` and edge vectors `u`, `v`. The normal is the
/// exact integer cross product, not normalized.
#[derive(Debug, Clone, Copy, PartialEq, Eq, Structural)]
pub struct Quad {
    pub q: Point3,
    pub u: Vec3,
    pub v: Vec3,
    pub normal: Vec3,
    pub mat: DynMaterial,
    pub aabbox: AABBox,
}

/// Half of `u + v`, rounded toward minus infinity, componentwise.
pub open spec fn spec_half_sum(u: Vec3, v: Vec3) -> Vec3 {
    Vec3 {
        x: ((u.x + v.x) / 2) as i64,
        y: ((u.y + v.y) / 2) as i64,
        z: ((u.z + v.z) / 2) as i64,
    }
}

pub open spec fn spec_add(a: Vec3, b: Vec3) -> Vec3 {
    Vec3 { x: (a.x + b.x) as i64, y: (a.y + b.y) as i64, z: (a.z + b.z) as i64 }
}

pub open spec fn spec_point_box(p: Point3) -> AABBox {
    AABBox { x_min: p.x, x_max: p.x, y_min: p.y, y_max: p.y, z_min: p.z, z_max: p.z }
}

/// The quad's box: the padded enclosure of its midpoint and four corners.
pub open spec fn spec_quad_box(q: Point3, u: Vec3, v: Vec3) -> AABBox {
    let mid = spec_add(q, spec_half_sum(u, v));
    spec_enclose(
        spec_enclose(
            spec_enclose(
                spec_enclose(spec_point_box(mid), spec_point_box(q)),
                spec_point_box(spec_add(q, v)),
            ),
            spec_point_box(spec_add(q, u)),
        ),
        spec_point_box(spec_add(spec_add(q, u), v)),
    )
}

/// The exact cross product of the edges.
pub open spec fn spec_edge_normal(u: Vec3, v: Vec3) -> Vec3 {
    Vec3 {
        x: spec_cross_x(u, v) as i64,
        y: spec_cross_y(u, v) as i64,
        z: spec_cross_z(u, v) as i64,
    }
}

/// What `Quad::new` builds.
pub open spec fn spec_quad_new(q: Point3, u: Vec3, v: Vec3, mat: DynMaterial) -> Quad {
    Quad { q, u, v, normal: spec_edge_normal(u, v), mat, aabbox: spec_quad_box(q, u, v) }
}

pub open spec fn quad_wf(qd: Quad) -> bool {
    &&& in_bounds(qd.q, PRIM_BOUND as int)
    &&& in_bounds(qd.u, PRIM_BOUND as int)
    &&& in_bounds(qd.v, PRIM_BOUND as int)
    &&& qd.normal == spec_edge_normal(qd.u, qd.v)
    &&& qd.normal != (Vec3 { x: 0, y: 0, z: 0 })
    &&& qd.aabbox == spec_quad_box(qd.q, qd.u, qd.v)
    &&& aabbox_wf(qd.aabbox)
}

/// The planar intersection shared by quads and triangles: the ray parameter
/// where the ray meets the supporting plane, rounded onto the fixed-point
/// grid, or `None` when the ray is parallel to the plane.
pub open spec fn spec_plane_t(q: Point3, normal: Vec3, r: Ray) -> Option<int> {
    let denom = spec_dot(r.direction, normal);
    if denom == 0 {
        None
    } else {
        let oq = Vec3 { x: (q.x - r.origin.x) as i64, y: (q.y - r.origin.y) as i64, z: (q.z
            - r.origin.z) as i64 };
        Some(spec_t_of(spec_dot(oq, normal), denom))
    }
}

/// Numerators of the surface parameters of the point `p` in the chart of
/// `(q, u, v)`; the common denominator is `normal . normal`.
pub open spec fn spec_alpha_num(q: Point3, v: Vec3, normal: Vec3, p: Point3) -> int {
    let pq = Vec3 { x: (p.x - q.x) as i64, y: (p.y - q.y) as i64, z: (p.z - q.z) as i64 };
    spec_dot(spec_edge_normal(pq, v), normal)
}

pub open spec fn spec_beta_num(q: Point3, u: Vec3, normal: Vec3, p: Point3) -> int {
    let pq = Vec3 { x: (p.x - q.x) as i64, y: (p.y - q.y) as i64, z: (p.z - q.z) as i64 };
    spec_dot(spec_edge_normal(u, pq), normal)
}

/// Clamp a `Q`-scaled value into `[0, Q]`.
pub open spec fn clamp_q(v: int) -> i64 {
    crate::entities::sphere::clamp_q(v)
}

/// The record a quad or triangle builds at `t` with chart numerators
/// `alpha`, `beta` over denominator `den`.
pub open spec fn spec_patch_record(
    qd: Quad,
    r: Ray,
    t: i128,
    alpha: int,
    beta: int,
    den: int,
) -> HitRecord {
    crate::hittable::spec_hit_record(
        r,
        t,
        qd.normal,
        clamp_q((alpha * Q) / den),
        clamp_q((beta * Q) / den),
        qd.mat,
    )
}

/// The exact quad intersection: meet the supporting plane inside the range,
/// then accept exactly when both chart coordinates lie in `[0, 1]`.
pub open spec fn spec_quad_hit(qd: Quad, r: Ray, range: TRange) -> Option<HitRecord> {
    match spec_plane_t(qd.q, qd.normal, r) {
        None => None,
        Some(t) => {
            if !crate::hittable::t_in_range(t, range) {
                None
            } else {
                let p = spec_ray_at(r, t);
                let den = spec_dot(qd.normal, qd.normal);
                let alpha = spec_alpha_num(qd.q, qd.v, qd.normal, p);
                let beta = spec_beta_num(qd.q, qd.u, qd.normal, p);
                if 0 <= alpha <= den && 0 <= beta <= den {
                    Some(spec_patch_record(qd, r, t as i128, alpha, beta, den))
                } else {
                    None
                }
            }
        },
    }
}

impl Quad {
    pub fn new(q: Point3, u: Vec3, v: Vec3, mat: DynMaterial) -> (r: Quad)
        requires
            in_bounds(q, PRIM_BOUND as int),
            in_bounds(u, PRIM_BOUND as int),
            in_bounds(v, PRIM_BOUND as int),
            spec_edge_normal(u, v) != (Vec3 { x: 0, y: 0, z: 0 }),
        ensures
            r == spec_quad_new(q, u, v, mat),
            quad_wf(r),
    {
        let normal = u.cross(v);
        let half = half_sum(u, v);
        let mid = q.add(half);
        let aabbox = AABBox::from_point(mid).enclose(&AABBox::from_point(q)).enclose(
            &AABBox::from_point(q.add(v)),
        ).enclose(&AABBox::from_point(q.add(u))).enclose(&AABBox::from_point(q.add(u).add(v)));
        Quad { q, u, v, normal, mat, aabbox }
    }

    pub fn get_aabbox(&self) -> (b: AABBox)
        requires
            quad_wf(*self),
        ensures
            b == self.aabbox,
            aabbox_wf(b),
    {
        self.aabbox
    }

    /// The intersection test; see [`spec_quad_hit`].
    pub fn hit(&self, r: &Ray, range: TRange) -> (res: Option<HitRecord>)
        requires
            quad_wf(*self),
            ray_wf(*r),
            t_range_wf(range),
        ensures
            res == spec_quad_hit(*self, *r, range),
    {
        let n = self.normal;
        proof {
            lemma_patch_bounds(*self, *r);
        }
        let denom = r.get_direction().dot(n);
        if denom == 0 {
            return None;
        }
        let oq = self.q.sub(r.get_origin());
        proof {
            crate::vec3::lemma_dot_bound2(oq, n, 0x10000000, 0x100000000000);
        }
        let t = crate::num::t_div(oq.dot(n), denom);
        if !(range.start <= t && t <= range.end) {
            return None;
        }
        let p = r.at(t);
        let pq = p.sub(self.q);
        let den = n.dot(n);
        let cv = pq.cross(self.v);
        let cu = self.u.cross(pq);
        proof {
            crate::vec3::lemma_cross_bound(pq, self.v, 0x10000000, PRIM_BOUND as int);
            crate::vec3::lemma_cross_bound(self.u, pq, PRIM_BOUND as int, 0x10000000);
            crate::vec3::lemma_dot_bound2(cv, n, 0x4000000000000, 0x100000000000);
            crate::vec3::lemma_dot_bound2(cu, n, 0x4000000000000, 0x100000000000);
        }
        let alpha = cv.dot(n);
        let beta = cu.dot(n);
        if 0 <= alpha && alpha <= den && 0 <= beta && beta <= den {
            proof {
                crate::vec3::lemma_prod_bound2(alpha as int, Q as int, 0x1000000000000000000000000, 0x10000);
                crate::vec3::lemma_prod_bound2(beta as int, Q as int, 0x1000000000000000000000000, 0x10000);
            }
            let uq = clamp_q_exec(crate::num::div_floor(alpha * (Q as i128), den));
            let vq = clamp_q_exec(crate::num::div_floor(beta * (Q as i128), den));
            Some(HitRecord::new(r, t, n, uq, vq, self.mat))
        } else {
            None
        }
    }
}

pub(crate) fn clamp_q_exec(v: i128) -> (r: i64)
    requires
        -0x40000000000000000000000000000000 <= v <= 0x40000000000000000000000000000000,
    ensures
        r == clamp_q(v as int),
{
    if v < 0 {
        0
    } else if v > Q as i128 {
        Q
    } else {
        v as i64
    }
}

/// Bounds on the intermediate quantities of the patch intersection,
/// justifying that the exact arithmetic stays inside `i128`. Shared by quads
/// and triangles, so it asks only for the fields both have.
pub(crate) proof fn lemma_patch_bounds(qd: Quad, r: Ray)
    requires
        in_bounds(qd.u, PRIM_BOUND as int),
        in_bounds(qd.v, PRIM_BOUND as int),
        qd.normal == spec_edge_normal(qd.u, qd.v),
        qd.normal != (Vec3 { x: 0, y: 0, z: 0 }),
        ray_wf(r),
    ensures
        in_bounds(qd.normal, 0x100000000000),  // 2^44
        -0x1000000000000000000000 <= spec_dot(r.direction, qd.normal)
            <= 0x1000000000000000000000,  // 2^84
        1 <= spec_dot(qd.normal, qd.normal) <= 0x100000000000000000000000,  // 2^92
{
    lemma_prod_bound(qd.u.y as int, qd.v.z as int, PRIM_BOUND as int);
    lemma_prod_bound(qd.u.z as int, qd.v.y as int, PRIM_BOUND as int);
    lemma_prod_bound(qd.u.z as int, qd.v.x as int, PRIM_BOUND as int);
    lemma_prod_bound(qd.u.x as int, qd.v.z as int, PRIM_BOUND as int);
    lemma_prod_bound(qd.u.x as int, qd.v.y as int, PRIM_BOUND as int);
    lemma_prod_bound(qd.u.y as int, qd.v.x as int, PRIM_BOUND as int);
    crate::vec3::lemma_dot_bound2(r.direction, qd.normal, crate::vec3::VEC_BOUND as int, 0x100000000000);
    crate::vec3::lemma_dot_bound2(qd.normal, qd.normal, 0x100000000000, 0x100000000000);
    crate::vec3::lemma_dot_self_pos(qd.normal);
}

/// A half-sum of two bounded vectors, exact floor halves.
pub(crate) fn half_sum(u: Vec3, v: Vec3) -> (r: Vec3)
    requires
        in_bounds(u, PRIM_BOUND as int),
        in_bounds(v, PRIM_BOUND as int),
    ensures
        r == spec_half_sum(u, v),
{
    let x = crate::num::div_floor((u.x + v.x) as i128, 2);
    let y = crate::num::div_floor((u.y + v.y) as i128, 2);
    let z = crate::num::div_floor((u.z + v.z) as i128, 2);
    proof {
        lemma_half_bound((u.x + v.x) as int);
        lemma_half_bound((u.y + v.y) as int);
        lemma_half_bound((u.z + v.z) as int);
    }
    Vec3 { x: x as i64, y: y as i64, z: z as i64 }
}

proof fn lemma_half_bound(s: int)
    requires
        -0x400000 <= s <= 0x400000,
    ensures
        -0x400000 <= s / 2 <= 0x400000,
{
    assert(-0x400000 <= s / 2 <= 0x400000) by (nonlinear_arith)
        requires
            -0x400000 <= s <= 0x400000,
    ;
}

} // verus!

verus! {

/// The light-sampling density toward a planar patch: zero on a miss, else
/// `dist^2 / (cos * area)` in `Q`-scaled fixed point with floor divisions
/// and caps, where `area` is the patch's own area measure.
pub open spec fn spec_patch_pdf(
    qd: Quad,
    origin: Point3,
    direction: Vec3,
    hit: Option<HitRecord>,
    area_num: int,
) -> i64 {
    match hit {
        None => 0,
        Some(rec) => {
            let dd = spec_dot(direction, direction);
            let t2 = (rec.t * rec.t) / 0x10000000000000000;
            let dist2_raw = t2 * dd;
            let dist2 = if dist2_raw > 0x10000000000000000000000 {
                0x10000000000000000000000int
            } else {
                dist2_raw
            };
            let nn = spec_dot(qd.normal, qd.normal);
            let ln = crate::num::sqrt_floor(nn);
            let ld = crate::num::sqrt_floor(dd);
            if ld <= 0 || ln <= 0 {
                0
            } else {
                let dn = spec_dot(direction, qd.normal);
                let adn = if dn < 0 {
                    -dn
                } else {
                    dn
                };
                let cos_q = (adn * Q) / (ld * ln);
                if cos_q <= 0 {
                    0
                } else {
                    let p1 = crate::entities::sphere::clamp_q_wide((dist2 * Q * area_num) / ln);
                    crate::entities::sphere::clamp_q_wide((p1 * Q) / cos_q)
                }
            }
        },
    }
}

/// Shared executable density for quads and triangles; `area_num` is 1 for a
/// quad (area `|n|`) and 2 for a triangle (area `|n| / 2`).
pub(crate) fn patch_pdf(
    qd: &Quad,
    origin: Point3,
    direction: Vec3,
    hit: Option<HitRecord>,
    area_num: i128,
    Ghost(spec_hit): Ghost<Option<HitRecord>>,
) -> (r: i64)
    requires
        in_bounds(qd.u, PRIM_BOUND as int),
        in_bounds(qd.v, PRIM_BOUND as int),
        qd.normal == spec_edge_normal(qd.u, qd.v),
        qd.normal != (Vec3 { x: 0, y: 0, z: 0 }),
        in_bounds(origin, crate::vec3::VEC_BOUND as int),
        in_bounds(direction, crate::vec3::VEC_BOUND as int),
        hit == spec_hit,
        hit is Some ==> -0x400000000000000 <= hit.unwrap().t <= 0x400000000000000,
        area_num == 1 || area_num == 2,
    ensures
        r == spec_patch_pdf(*qd, origin, direction, spec_hit, area_num as int),
        0 <= r <= 0x10000000000,
{
    match hit {
        None => 0,
        Some(rec) => {
            proof {
                crate::vec3::lemma_dot_bound(direction, direction, 0x8000000);
                lemma_patch_bounds(*qd, Ray { origin, direction });
                crate::vec3::lemma_prod_bound2(
                    rec.t as int,
                    rec.t as int,
                    0x400000000000000,
                    0x400000000000000,
                );
            }
            proof {
                assert(rec.t * rec.t >= 0) by (nonlinear_arith);
                assert(rec.t * rec.t <= 0x10000000000000000 * 0x10000000000000int)
                    by (nonlinear_arith)
                    requires
                        -0x400000000000000 <= rec.t <= 0x400000000000000,
                ;
            }
            let t2 = crate::num::div_floor(rec.t * rec.t, 0x10000000000000000);
            let dd = direction.dot(direction);
            proof {
                vstd::arithmetic::div_mod::lemma_div_pos_is_pos(
                    (rec.t * rec.t) as int,
                    0x10000000000000000int,
                );
                vstd::arithmetic::div_mod::lemma_multiply_divide_le(
                    (rec.t * rec.t) as int,
                    0x10000000000000000int,
                    0x10000000000000int,
                );
                crate::vec3::lemma_prod_bound2(
                    t2 as int,
                    dd as int,
                    0x10000000000000,
                    0x100000000000000,
                );
                crate::vec3::lemma_dot_self_nonneg(direction);
                assert(t2 * dd >= 0) by (nonlinear_arith)
                    requires
                        t2 >= 0,
                        dd >= 0,
                ;
            }
            let dist2_raw = t2 * dd;
            let dist2: i128 = if dist2_raw > 0x10000000000000000000000 {
                0x10000000000000000000000
            } else {
                dist2_raw
            };
            let nn = qd.normal.dot(qd.normal);
            let ln_r = crate::num::isqrt(nn as u128);
            proof {
                crate::num::lemma_sqrt_le(nn as int, ln_r as int, 0x10000000000000);
            }
            let ln = ln_r as i128;
            let ld_r = crate::num::isqrt(dd as u128);
            proof {
                crate::num::lemma_sqrt_le(dd as int, ld_r as int, 0x10000000);
            }
            let ld = ld_r as i128;
            if ld <= 0 || ln <= 0 {
                return 0;
            }
            let dn = direction.dot(qd.normal);
            let adn = if dn < 0 {
                -dn
            } else {
                dn
            };
            proof {
                crate::vec3::lemma_prod_bound2(adn as int, Q as int, 0x1000000000000000000000, 0x10000);
                crate::vec3::lemma_prod_bound2(ld as int, ln as int, 0x10000000, 0x10000000000000);
                assert(ld * ln >= 1) by (nonlinear_arith)
                    requires
                        ld >= 1,
                        ln >= 1,
                ;
            }
            let cos_q = crate::num::div_floor(adn * (Q as i128), ld * ln);
            if cos_q <= 0 {
                return 0;
            }
            proof {
                crate::vec3::lemma_prod_bound2(
                    dist2 * (Q as i128) as int,
                    area_num as int,
                    0x100000000000000000000000000,
                    2,
                );
            }
            let p1 = crate::entities::sphere::clamp_pdf(
                crate::num::div_floor(dist2 * (Q as i128) * area_num, ln),
            );
            proof {
                crate::vec3::lemma_prod_bound2(p1 as int, Q as int, 0x10000000000, 0x10000);
            }
            crate::entities::sphere::clamp_pdf(
                crate::num::div_floor((p1 as i128) * (Q as i128), cos_q),
            )
        },
    }
}

impl Quad {
    /// The light-sampling density toward this quad.
    pub fn pdf_value(&self, origin: Point3, direction: Vec3) -> (r: i64)
        requires
            quad_wf(*self),
            in_bounds(origin, crate::vec3::VEC_BOUND as int),
            in_bounds(direction, crate::vec3::VEC_BOUND as int),
        ensures
            r == spec_patch_pdf(
                *self,
                origin,
                direction,
                spec_quad_hit(*self, Ray { origin, direction }, crate::entities::sphere::spec_pdf_range()),
                1,
            ),
            0 <= r <= 0x10000000000,
    {
        let ray = Ray::new(origin, direction);
        let range = TRange { start: 1, end: 0x400000000000000 };
        let h = self.hit(&ray, range);
        patch_pdf(
            self,
            origin,
            direction,
            h,
            1,
            Ghost(spec_quad_hit(*self, Ray { origin, direction }, crate::entities::sphere::spec_pdf_range())),
        )
    }

    /// A direction from `origin` toward a random point of the patch. Every
    /// outcome aims at a point of the parallelogram, as [`is_quad_sample`]
    /// describes it.
    pub fn random(&self, origin: Point3, rng: &mut rand::rngs::SmallRng) -> (r: Vec3)
        requires
            quad_wf(*self),
            in_bounds(origin, crate::vec3::VEC_BOUND as int),
        ensures
            in_bounds(r, crate::vec3::VEC_BOUND as int),
            is_quad_sample(*self, origin, r),
    {
        let r1 = crate::rng::random_q(rng);
        let r2 = crate::rng::random_q(rng);
        random_patch_point(self.q, self.u, self.v, r1, r2, origin)
    }
}

/// `dir` points from `origin` at the patch point `q + u * a / Q + v * b / Q`,
/// each component floored to the unit grid and clamped into the world bound.
pub open spec fn is_patch_sample(
    q: Point3,
    u: Vec3,
    v: Vec3,
    origin: Point3,
    dir: Vec3,
    a: int,
    b: int,
) -> bool {
    &&& dir.x == crate::vec3::clamp_coord(
        q.x + (u.x * a) / (Q as int) + (v.x * b) / (Q as int) - origin.x,
    )
    &&& dir.y == crate::vec3::clamp_coord(
        q.y + (u.y * a) / (Q as int) + (v.y * b) / (Q as int) - origin.y,
    )
    &&& dir.z == crate::vec3::clamp_coord(
        q.z + (u.z * a) / (Q as int) + (v.z * b) / (Q as int) - origin.z,
    )
}

/// `dir` aims at some point of the quad's full parallelogram: both surface
/// parameters drawn from the unit interval.
pub open spec fn is_quad_sample(qd: Quad, origin: Point3, dir: Vec3) -> bool {
    exists|a: int, b: int|
        0 <= a <= Q as int && 0 <= b <= Q as int && #[trigger] is_patch_sample(
            qd.q,
            qd.u,
            qd.v,
            origin,
            dir,
            a,
            b,
        )
}

/// A direction to `q + u * r1 / Q + v * r2 / Q`, seen from `origin`.
pub(crate) fn random_patch_point(
    q: Point3,
    u: Vec3,
    v: Vec3,
    r1: i64,
    r2: i64,
    origin: Point3,
) -> (r: Vec3)
    requires
        in_bounds(q, crate::entities::PRIM_BOUND as int),
        in_bounds(u, crate::entities::PRIM_BOUND as int),
        in_bounds(v, crate::entities::PRIM_BOUND as int),
        in_bounds(origin, crate::vec3::VEC_BOUND as int),
        0 <= r1 <= Q,
        0 <= r2 <= Q,
    ensures
        in_bounds(r, crate::vec3::VEC_BOUND as int),
        is_patch_sample(q, u, v, origin, r, r1 as int, r2 as int),
{
    proof {
        crate::vec3::lemma_prod_bound2(u.x as int, r1 as int, crate::entities::PRIM_BOUND as int, Q as int);
        crate::vec3::lemma_prod_bound2(u.y as int, r1 as int, crate::entities::PRIM_BOUND as int, Q as int);
        crate::vec3::lemma_prod_bound2(u.z as int, r1 as int, crate::entities::PRIM_BOUND as int, Q as int);
        crate::vec3::lemma_prod_bound2(v.x as int, r2 as int, crate::entities::PRIM_BOUND as int, Q as int);
        crate::vec3::lemma_prod_bound2(v.y as int, r2 as int, crate::entities::PRIM_BOUND as int, Q as int);
        crate::vec3::lemma_prod_bound2(v.z as int, r2 as int, crate::entities::PRIM_BOUND as int, Q as int);
    }
    let su = u.scale(r1);
    let sv = v.scale(r2);
    let jux = crate::num::div_floor(su.x as i128, Q as i128);
    let juy = crate::num::div_floor(su.y as i128, Q as i128);
    let juz = crate::num::div_floor(su.z as i128, Q as i128);
    let jvx = crate::num::div_floor(sv.x as i128, Q as i128);
    let jvy = crate::num::div_floor(sv.y as i128, Q as i128);
    let jvz = crate::num::div_floor(sv.z as i128, Q as i128);
    let x = crate::entities::sphere::clamp_dir((q.x as i128) + jux + jvx - (origin.x as i128));
    let y = crate::entities::sphere::clamp_dir((q.y as i128) + juy + jvy - (origin.y as i128));
    let z = crate::entities::sphere::clamp_dir((q.z as i128) + juz + jvz - (origin.z as i128));
    Vec3 { x, y, z }
}

} // verus!
