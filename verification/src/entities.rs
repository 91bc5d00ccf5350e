//! The geometric primitives and their shared dispatch type.

pub mod cuboid;
pub mod plane;
pub mod quadrilateral;
pub mod sphere;
pub mod transformations;
pub mod triangles;

use crate::aabox::{aabbox_wf, spec_box_hit, AABBox, TRange};
use crate::hittable::HitRecord;
use crate::vec3::{ray_wf, Ray};
use vstd::prelude::*;

verus! {

/// Magnitude bound for the defining coordinates of a primitive (centers,
/// corners, edge vectors). Tighter than the general vector bound so that
/// every intermediate intersection quantity stays exact.
pub const PRIM_BOUND: i64 = 0x200000; // 2^21

/// The circle constant in `Q` scale: `round(pi * Q)`.
pub const PI_Q: i64 = 205887;

/// A scene primitive: a closed set of variants sharing the intersection and
/// bounding interface.
#[derive(Debug)]
pub enum Primitive {
    Sphere(sphere::Sphere),
    Plane(plane::Plane),
    Quad(quadrilateral::Quad),
    Triangle(triangles::Triangle),
    Cuboid(cuboid::Cuboid),
    Transformed(transformations::TransformedPrim),
}

/// The variant tag of a primitive, the key the heterogeneous container
/// groups its storage by.
#[derive(Debug, Clone, Copy, PartialEq, Eq, Structural)]
pub enum PrimitiveKind {
    Sphere,
    Plane,
    Quad,
    Triangle,
    Cuboid,
    Transformed,
}

/// The tag of a primitive.
pub open spec fn spec_kind(p: Primitive) -> PrimitiveKind {
    match p {
        Primitive::Sphere(_) => PrimitiveKind::Sphere,
        Primitive::Plane(_) => PrimitiveKind::Plane,
        Primitive::Quad(_) => PrimitiveKind::Quad,
        Primitive::Triangle(_) => PrimitiveKind::Triangle,
        Primitive::Cuboid(_) => PrimitiveKind::Cuboid,
        Primitive::Transformed(_) => PrimitiveKind::Transformed,
    }
}

/// A fixed total order on the tags, standing in for the type-identifier
/// order the storage is kept sorted by.
pub open spec fn spec_kind_rank(k: PrimitiveKind) -> u8 {
    match k {
        PrimitiveKind::Sphere => 0,
        PrimitiveKind::Plane => 1,
        PrimitiveKind::Quad => 2,
        PrimitiveKind::Triangle => 3,
        PrimitiveKind::Cuboid => 4,
        PrimitiveKind::Transformed => 5,
    }
}

pub fn kind_rank(k: PrimitiveKind) -> (r: u8)
    ensures
        r == spec_kind_rank(k),
{
    match k {
        PrimitiveKind::Sphere => 0,
        PrimitiveKind::Plane => 1,
        PrimitiveKind::Quad => 2,
        PrimitiveKind::Triangle => 3,
        PrimitiveKind::Cuboid => 4,
        PrimitiveKind::Transformed => 5,
    }
}

/// Structural well-formedness of a primitive. Opaque: callers reason
/// through the per-variant well-formedness predicates.
#[verifier::opaque]
pub open spec fn primitive_wf(p: Primitive) -> bool
    decreases p,
{
    match p {
        Primitive::Sphere(s) => sphere::sphere_wf(s),
        Primitive::Plane(pl) => plane::plane_wf(pl),
        Primitive::Quad(q) => quadrilateral::quad_wf(q),
        Primitive::Triangle(t) => triangles::triangle_wf(t),
        Primitive::Cuboid(c) => cuboid::cuboid_wf(c),
        Primitive::Transformed(t) => transformations::transformed_wf(t),
    }
}

/// The bounding box of a primitive.
pub open spec fn spec_primitive_box(p: Primitive) -> AABBox
    decreases p,
{
    match p {
        Primitive::Sphere(s) => s.aabox,
        Primitive::Plane(pl) => plane::spec_plane_box(pl),
        Primitive::Quad(q) => q.aabbox,
        Primitive::Triangle(t) => t.aabbox,
        Primitive::Cuboid(c) => cuboid::spec_cuboid_box(c),
        Primitive::Transformed(t) => t.aabbox,
    }
}

/// The raw intersection of a primitive, before the bounding-box screen test.
/// Opaque: callers reason through the per-variant specifications instead of
/// unfolding all six at once.
#[verifier::opaque]
pub open spec fn spec_primitive_hit(p: Primitive, r: Ray, range: TRange) -> Option<HitRecord>
    decreases p,
{
    match p {
        Primitive::Sphere(s) => sphere::spec_sphere_hit(s, r, range),
        Primitive::Plane(pl) => plane::spec_plane_hit(pl, r, range),
        Primitive::Quad(q) => quadrilateral::spec_quad_hit(q, r, range),
        Primitive::Triangle(t) => triangles::spec_triangle_hit(t, r, range),
        Primitive::Cuboid(c) => cuboid::spec_cuboid_hit(c, r, range),
        Primitive::Transformed(t) => transformations::spec_transformed_hit(t, r, range),
    }
}

/// The light-sampling density of a primitive. Opaque, like the other
/// per-primitive dispatch specifications.
#[verifier::opaque]
pub open spec fn spec_primitive_pdf(
    p: Primitive,
    origin: crate::vec3::Point3,
    direction: crate::vec3::Vec3,
) -> i64 {
    match p {
        Primitive::Sphere(s) => sphere::spec_sphere_pdf(s, origin, direction),
        Primitive::Quad(q) => quadrilateral::spec_patch_pdf(
            q,
            origin,
            direction,
            quadrilateral::spec_quad_hit(
                q,
                crate::vec3::Ray { origin, direction },
                sphere::spec_pdf_range(),
            ),
            1,
        ),
        Primitive::Triangle(t) => quadrilateral::spec_patch_pdf(
            triangles::spec_as_quad(t),
            origin,
            direction,
            triangles::spec_triangle_hit(
                t,
                crate::vec3::Ray { origin, direction },
                sphere::spec_pdf_range(),
            ),
            2,
        ),
        _ => 0,
    }
}

/// What the per-variant samplers can hand back: spheres, quads and
/// triangles aim at a point of their geometry; the shapes that are never
/// sampled as lights return the fixed unit axis direction.
pub open spec fn is_primitive_sample(
    p: Primitive,
    origin: crate::vec3::Point3,
    dir: crate::vec3::Vec3,
) -> bool {
    match p {
        Primitive::Sphere(s) => sphere::is_sphere_sample(s, origin, dir),
        Primitive::Quad(q) => quadrilateral::is_quad_sample(q, origin, dir),
        Primitive::Triangle(t) => triangles::is_triangle_sample(t, origin, dir),
        _ => dir == (crate::vec3::Vec3 { x: crate::vec3::Q, y: 0, z: 0 }),
    }
}

/// The box-checked intersection every container uses: the primitive is consulted
/// only when the ray passes its bounding box's slab test. This gate is what
/// both containers compute: the linear scan and the hierarchy each go
/// through it, so the traversal theorem compares like with like.
pub open spec fn spec_bounded_hit(p: Primitive, r: Ray, range: TRange) -> Option<HitRecord> {
    if spec_box_hit(spec_primitive_box(p), r, range) is Some {
        spec_primitive_hit(p, r, range)
    } else {
        None
    }
}

impl Primitive {
    /// The variant tag.
    pub fn kind(&self) -> (k: PrimitiveKind)
        ensures
            k == spec_kind(*self),
    {
        match self {
            Primitive::Sphere(_) => PrimitiveKind::Sphere,
            Primitive::Plane(_) => PrimitiveKind::Plane,
            Primitive::Quad(_) => PrimitiveKind::Quad,
            Primitive::Triangle(_) => PrimitiveKind::Triangle,
            Primitive::Cuboid(_) => PrimitiveKind::Cuboid,
            Primitive::Transformed(_) => PrimitiveKind::Transformed,
        }
    }

    /// The cached bounding box.
    pub fn get_aabbox(&self) -> (b: AABBox)
        requires
            primitive_wf(*self),
        ensures
            b == spec_primitive_box(*self),
            aabbox_wf(b),
    {
        proof {
            reveal(primitive_wf);
        }
        match self {
            Primitive::Sphere(s) => s.get_aabbox(),
            Primitive::Plane(pl) => pl.get_aabbox(),
            Primitive::Quad(q) => q.get_aabbox(),
            Primitive::Triangle(t) => t.get_aabbox(),
            Primitive::Cuboid(c) => c.get_aabbox(),
            Primitive::Transformed(t) => t.get_aabbox(),
        }
    }

    /// The raw intersection test of the concrete primitive.
    #[verifier::rlimit(100)]
    pub fn hit(&self, r: &Ray, range: TRange) -> (res: Option<HitRecord>)
        requires
            primitive_wf(*self),
            ray_wf(*r),
            crate::aabox::t_range_wf(range),
        ensures
            res == spec_primitive_hit(*self, *r, range),
        decreases *self, 0int,
    {
        proof {
            reveal(spec_primitive_hit);
            reveal(primitive_wf);
        }
        match self {
            Primitive::Sphere(s) => s.hit(r, range),
            Primitive::Plane(pl) => pl.hit(r, range),
            Primitive::Quad(q) => q.hit(r, range),
            Primitive::Triangle(t) => t.hit(r, range),
            Primitive::Cuboid(c) => c.hit(r, range),
            Primitive::Transformed(t) => t.hit(r, range),
        }
    }

    /// Box-checked intersection: test the bounding box first, and only consult
    /// the primitive when the slab test passes.
    pub fn bounded_hit(&self, r: &Ray, range: TRange) -> (res: Option<HitRecord>)
        requires
            primitive_wf(*self),
            ray_wf(*r),
            crate::aabox::t_range_wf(range),
        ensures
            res == spec_bounded_hit(*self, *r, range),
    {
        let b = self.get_aabbox();
        if b.is_hit(r, range) {
            self.hit(r, range)
        } else {
            None
        }
    }

    /// The light-sampling density of directions from `origin` toward this
    /// primitive: spheres and planar patches compute their solid-angle or
    /// projected-area densities; the other shapes are not sampled as lights
    /// and report zero.
    pub fn pdf_value(&self, origin: crate::vec3::Point3, direction: crate::vec3::Vec3) -> (r: i64)
        requires
            primitive_wf(*self),
            crate::vec3::in_bounds(origin, crate::vec3::VEC_BOUND as int),
            crate::vec3::in_bounds(direction, crate::vec3::VEC_BOUND as int),
        ensures
            r == spec_primitive_pdf(*self, origin, direction),
            0 <= r <= 0x10000000000,
    {
        proof {
            reveal(primitive_wf);
            reveal(spec_primitive_pdf);
        }
        match self {
            Primitive::Sphere(s) => s.pdf_value(origin, direction),
            Primitive::Quad(q) => q.pdf_value(origin, direction),
            Primitive::Triangle(t) => t.pdf_value(origin, direction),
            _ => 0,
        }
    }

    /// A sampled direction from `origin` toward this primitive; shapes that
    /// are not sampled as lights fall back to a fixed axis direction. Every
    /// outcome satisfies [`is_primitive_sample`].
    pub fn random(&self, origin: crate::vec3::Point3, rng: &mut rand::rngs::SmallRng) -> (r:
        crate::vec3::Vec3)
        requires
            primitive_wf(*self),
            crate::vec3::in_bounds(origin, crate::vec3::VEC_BOUND as int),
        ensures
            crate::vec3::in_bounds(r, crate::vec3::VEC_BOUND as int),
            is_primitive_sample(*self, origin, r),
    {
        proof {
            reveal(primitive_wf);
        }
        match self {
            Primitive::Sphere(s) => s.random(origin, rng),
            Primitive::Quad(q) => q.random(origin, rng),
            Primitive::Triangle(t) => t.random(origin, rng),
            _ => crate::vec3::Vec3 { x: crate::vec3::Q, y: 0, z: 0 },
        }
    }

    /// Surface area of the primitive's bounding box; an additive stand-in
    /// for a cost heuristic, as in the split selection.
    pub fn get_surface_area(&self) -> (a: i128)
        requires
            primitive_wf(*self),
        ensures
            a == crate::aabox::spec_surface_area(spec_primitive_box(*self)),
    {
        let b = self.get_aabbox();
        b.get_surface_area()
    }
}

/// A primitive whose box the ray's slab test rejects reports no hit through
/// its box check; together with box monotonicity this justifies pruning a whole
/// subtree of the hierarchy after one failed slab test.
pub proof fn lemma_bounded_hit_pruned(p: Primitive, outer: AABBox, r: Ray, range: TRange)
    requires
        primitive_wf(p),
        aabbox_wf(outer),
        ray_wf(r),
        crate::aabox::t_range_wf(range),
        crate::aabox::box_contained(spec_primitive_box(p), outer),
        spec_box_hit(outer, r, range) is None,
    ensures
        spec_bounded_hit(p, r, range) is None,
{
    lemma_primitive_box_wf(p);
    crate::aabox::lemma_box_hit_monotonic(spec_primitive_box(p), outer, r, range);
}

/// Every well-formed primitive carries a well-formed bounding box.
pub proof fn lemma_primitive_box_wf(p: Primitive)
    requires
        primitive_wf(p),
    ensures
        aabbox_wf(spec_primitive_box(p)),
{
    reveal(primitive_wf);
}

} // verus!
