//! Axis-aligned cuboids, built as six quads.

use crate::aabox::{aabbox_wf, spec_enclose, t_range_wf, AABBox, TRange};
use crate::entities::quadrilateral::{spec_point_box, spec_quad_new, Quad};
use crate::hittable::{spec_nearer, HitRecord};
use crate::material::DynMaterial;
use crate::vec3::{in_bounds, ray_wf, Point3, Ray, Vec3};
use vstd::prelude::*;

verus! {

/// Coordinate bound for the two corners a cuboid is built from; tighter than
/// the primitive bound so the derived quads stay within it.
pub const CUBOID_BOUND: i64 = 0x100000; // 2^20

/// A cuboid: the six faces of the padded box spanned by two corners, with
/// their enclosure cached.
#[derive(Debug)]
pub struct Cuboid {
    pub quads: [Quad; 6],
    pub aabbox: AABBox,
}

/// The padded box spanned by two corner points.
pub open spec fn spec_corner_box(p: Point3, q: Point3) -> AABBox {
    spec_enclose(spec_point_box(p), spec_point_box(q))
}

/// The six face quads of `Cuboid::new`, in construction order.
pub open spec fn spec_cuboid_quads(p: Point3, q: Point3, mat: DynMaterial) -> Seq<Quad> {
    let b = spec_corner_box(p, q);
    let min_p = Vec3 { x: b.x_min, y: b.y_min, z: b.z_min };
    let max_p = Vec3 { x: b.x_max, y: b.y_max, z: b.z_max };
    let dx = Vec3 { x: (b.x_max - b.x_min) as i64, y: 0, z: 0 };
    let dy = Vec3 { x: 0, y: (b.y_max - b.y_min) as i64, z: 0 };
    let dz = Vec3 { x: 0, y: 0, z: (b.z_max - b.z_min) as i64 };
    let ndx = Vec3 { x: (b.x_min - b.x_max) as i64, y: 0, z: 0 };
    let ndy = Vec3 { x: 0, y: (b.y_min - b.y_max) as i64, z: 0 };
    let ndz = Vec3 { x: 0, y: 0, z: (b.z_min - b.z_max) as i64 };
    seq![
        spec_quad_new(min_p, dx, dy, mat),
        spec_quad_new(min_p, dy, dz, mat),
        spec_quad_new(min_p, dx, dz, mat),
        spec_quad_new(max_p, ndx, ndy, mat),
        spec_quad_new(max_p, ndy, ndz, mat),
        spec_quad_new(max_p, ndx, ndz, mat),
    ]
}

pub open spec fn cuboid_wf(c: Cuboid) -> bool {
    &&& forall|i: int| 0 <= i < 6 ==> crate::entities::quadrilateral::quad_wf(#[trigger] c.quads@[i])
    &&& c.aabbox == spec_cuboid_box(c)
    &&& aabbox_wf(c.aabbox)
}

/// The cuboid's box: the enclosure of its six face boxes.
pub open spec fn spec_cuboid_box(c: Cuboid) -> AABBox {
    spec_enclose(
        spec_enclose(
            spec_enclose(
                spec_enclose(
                    spec_enclose(c.quads@[0].aabbox, c.quads@[1].aabbox),
                    c.quads@[2].aabbox,
                ),
                c.quads@[3].aabbox,
            ),
            c.quads@[4].aabbox,
        ),
        c.quads@[5].aabbox,
    )
}

/// The nearest face hit: the six quads scanned in order, earlier faces
/// winning ties.
pub open spec fn spec_cuboid_hit(c: Cuboid, r: Ray, range: TRange) -> Option<HitRecord> {
    spec_nearer(
        spec_nearer(
            spec_nearer(
                spec_nearer(
                    spec_nearer(
                        crate::entities::quadrilateral::spec_quad_hit(c.quads@[0], r, range),
                        crate::entities::quadrilateral::spec_quad_hit(c.quads@[1], r, range),
                    ),
                    crate::entities::quadrilateral::spec_quad_hit(c.quads@[2], r, range),
                ),
                crate::entities::quadrilateral::spec_quad_hit(c.quads@[3], r, range),
            ),
            crate::entities::quadrilateral::spec_quad_hit(c.quads@[4], r, range),
        ),
        crate::entities::quadrilateral::spec_quad_hit(c.quads@[5], r, range),
    )
}

impl Cuboid {
    /// Build the six faces of the padded box spanned by `p` and `q`.
    #[verifier::rlimit(100)]
    pub fn new(p: Point3, q: Point3, mat: DynMaterial) -> (c: Cuboid)
        requires
            in_bounds(p, CUBOID_BOUND as int),
            in_bounds(q, CUBOID_BOUND as int),
        ensures
            c.quads@ == spec_cuboid_quads(p, q, mat),
            cuboid_wf(c),
    {
        let b = AABBox::from_point(p).enclose(&AABBox::from_point(q));
        let min_p = Vec3 { x: b.x_min, y: b.y_min, z: b.z_min };
        let max_p = Vec3 { x: b.x_max, y: b.y_max, z: b.z_max };
        let dx = Vec3 { x: b.x_max - b.x_min, y: 0, z: 0 };
        let dy = Vec3 { x: 0, y: b.y_max - b.y_min, z: 0 };
        let dz = Vec3 { x: 0, y: 0, z: b.z_max - b.z_min };
        let ndx = Vec3 { x: b.x_min - b.x_max, y: 0, z: 0 };
        let ndy = Vec3 { x: 0, y: b.y_min - b.y_max, z: 0 };
        let ndz = Vec3 { x: 0, y: 0, z: b.z_min - b.z_max };
        proof {
            lemma_face_normals_nonzero(p, q);
            let ex = (b.x_max - b.x_min) as int;
            let ey = (b.y_max - b.y_min) as int;
            let ez = (b.z_max - b.z_min) as int;
            lemma_pos_prod(ex, ey);
            lemma_pos_prod(ey, ez);
            lemma_pos_prod(ex, ez);
            crate::vec3::lemma_prod_bound(ex, ey, 0x400000);
            crate::vec3::lemma_prod_bound(ey, ez, 0x400000);
            crate::vec3::lemma_prod_bound(ex, ez, 0x400000);
            // Face normals: each pair of axis-aligned edges crosses to a
            // single nonzero component.
            assert(crate::vec3::spec_cross_z(dx, dy) == ex * ey);
            assert(crate::vec3::spec_cross_x(dy, dz) == ey * ez);
            assert(crate::vec3::spec_cross_y(dx, dz) == -(ex * ez));
            assert(crate::vec3::spec_cross_z(ndx, ndy) == ex * ey);
            assert(crate::vec3::spec_cross_x(ndy, ndz) == ey * ez);
            assert(crate::vec3::spec_cross_y(ndx, ndz) == -(ex * ez));
        }
        let q0 = Quad::new(min_p, dx, dy, mat);
        let q1 = Quad::new(min_p, dy, dz, mat);
        let q2 = Quad::new(min_p, dx, dz, mat);
        let q3 = Quad::new(max_p, ndx, ndy, mat);
        let q4 = Quad::new(max_p, ndy, ndz, mat);
        let q5 = Quad::new(max_p, ndx, ndz, mat);
        let aabbox = q0.get_aabbox().enclose(&q1.get_aabbox()).enclose(&q2.get_aabbox()).enclose(
            &q3.get_aabbox(),
        ).enclose(&q4.get_aabbox()).enclose(&q5.get_aabbox());
        let c = Cuboid { quads: [q0, q1, q2, q3, q4, q5], aabbox };
        proof {
            assert(c.quads@ =~= spec_cuboid_quads(p, q, mat));
        }
        c
    }

    pub fn get_aabbox(&self) -> (b: AABBox)
        requires
            cuboid_wf(*self),
        ensures
            b == spec_cuboid_box(*self),
            aabbox_wf(b),
    {
        self.aabbox
    }

    /// Nearest hit over the six faces; see [`spec_cuboid_hit`].
    pub fn hit(&self, r: &Ray, range: TRange) -> (res: Option<HitRecord>)
        requires
            cuboid_wf(*self),
            ray_wf(*r),
            t_range_wf(range),
        ensures
            res == spec_cuboid_hit(*self, *r, range),
    {
        let h0 = self.quads[0].hit(r, range);
        let h1 = self.quads[1].hit(r, range);
        let h2 = self.quads[2].hit(r, range);
        let h3 = self.quads[3].hit(r, range);
        let h4 = self.quads[4].hit(r, range);
        let h5 = self.quads[5].hit(r, range);
        crate::hittable::nearer(
            crate::hittable::nearer(
                crate::hittable::nearer(
                    crate::hittable::nearer(crate::hittable::nearer(h0, h1), h2),
                    h3,
                ),
                h4,
            ),
            h5,
        )
    }
}

/// The face edge vectors of a padded corner box are nonzero on their axes,
/// so every face quad has a nonzero normal.
/// Products of positive extents are positive, with or without negated
/// factors.
proof fn lemma_pos_prod(a: int, b: int)
    requires
        a >= 1,
        b >= 1,
    ensures
        a * b >= 1,
        (-a) * (-b) == a * b,
        (-a) * b == -(a * b),
        a * (-b) == -(a * b),
{
    assert(a * b >= 1 && (-a) * (-b) == a * b && (-a) * b == -(a * b) && a * (-b) == -(a * b))
        by (nonlinear_arith)
        requires
            a >= 1,
            b >= 1,
    ;
}

proof fn lemma_face_normals_nonzero(p: Point3, q: Point3)
    requires
        in_bounds(p, CUBOID_BOUND as int),
        in_bounds(q, CUBOID_BOUND as int),
    ensures
        ({
            let b = spec_corner_box(p, q);
            b.x_max - b.x_min >= 1 && b.y_max - b.y_min >= 1 && b.z_max - b.z_min >= 1
        }),
{
}

} // verus!
