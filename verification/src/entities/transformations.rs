//! Rigid transforms: a fixed-point rotation matrix plus a translation,
//! wrapped around any inner primitive.
//!
//! Matrix entries are `Q`-scaled. A transformed primitive intersects by
//! mapping the ray into object space with the exact adjugate-over-determinant
//! inverse (rounded onto the unit grid), delegating to the inner primitive,
//! and mapping the hit point back.

use crate::aabox::{aabbox_wf, spec_enclose, t_range_wf, AABBox, TRange};
use crate::entities::quadrilateral::spec_point_box;
use crate::entities::{primitive_wf, spec_primitive_box, spec_primitive_hit, Primitive, PRIM_BOUND};
use crate::hittable::HitRecord;
use crate::vec3::{clamp_coord, in_bounds, ray_wf, Point3, Ray, Vec3, Q, VEC_BOUND};
use vstd::prelude::*;

verus! {

/// Magnitude bound of a matrix entry: scales of up to two are representable.
pub const MAT_BOUND: i64 = 131072; // 2 * Q

/// A marker passed to the internal transform plumbing, sealing it against
/// outside callers.
pub struct Token {}

/// A 3x3 matrix of `Q`-scaled fixed-point entries, row by row.
#[derive(Debug, Clone, Copy, PartialEq, Eq, Structural)]
pub struct Matrix3 {
    pub m00: i64,
    pub m01: i64,
    pub m02: i64,
    pub m10: i64,
    pub m11: i64,
    pub m12: i64,
    pub m20: i64,
    pub m21: i64,
    pub m22: i64,
}

pub open spec fn matrix_wf(m: Matrix3) -> bool {
    &&& -MAT_BOUND <= m.m00 <= MAT_BOUND && -MAT_BOUND <= m.m01 <= MAT_BOUND && -MAT_BOUND <= m.m02
        <= MAT_BOUND
    &&& -MAT_BOUND <= m.m10 <= MAT_BOUND && -MAT_BOUND <= m.m11 <= MAT_BOUND && -MAT_BOUND <= m.m12
        <= MAT_BOUND
    &&& -MAT_BOUND <= m.m20 <= MAT_BOUND && -MAT_BOUND <= m.m21 <= MAT_BOUND && -MAT_BOUND <= m.m22
        <= MAT_BOUND
}

/// The determinant in `Q^3` scale.
pub open spec fn spec_det(m: Matrix3) -> int {
    m.m00 * (m.m11 * m.m22 - m.m12 * m.m21) + m.m01 * (m.m12 * m.m20 - m.m10 * m.m22) + m.m02 * (
    m.m10 * m.m21 - m.m11 * m.m20)
}

/// One coordinate of the forward map `m * v / Q`, clamped to the world.
pub open spec fn spec_fwd_coord(a: int, b: int, c: int, v: Vec3) -> int {
    clamp_coord((a * v.x + b * v.y + c * v.z) / (Q as int))
}

/// The forward map of a point: rotate (fixed point, floor) and clamp.
pub open spec fn spec_apply(m: Matrix3, v: Vec3) -> Vec3 {
    Vec3 {
        x: spec_fwd_coord(m.m00 as int, m.m01 as int, m.m02 as int, v) as i64,
        y: spec_fwd_coord(m.m10 as int, m.m11 as int, m.m12 as int, v) as i64,
        z: spec_fwd_coord(m.m20 as int, m.m21 as int, m.m22 as int, v) as i64,
    }
}

/// One coordinate of the inverse map: the adjugate row applied to `v`,
/// rescaled by `Q / det` and clamped to the world.
pub open spec fn spec_inv_coord(a: int, b: int, c: int, v: Vec3, det: int) -> int {
    let num = (a * v.x + b * v.y + c * v.z) * Q;
    if det > 0 {
        clamp_coord(num / det)
    } else {
        clamp_coord((-num) / (-det))
    }
}

/// The inverse map `m^-1 * v`, computed by adjugate over determinant.
pub open spec fn spec_inv_apply(m: Matrix3, v: Vec3) -> Vec3 {
    let det = spec_det(m);
    Vec3 {
        x: spec_inv_coord(
            m.m11 * m.m22 - m.m12 * m.m21,
            m.m02 * m.m21 - m.m01 * m.m22,
            m.m01 * m.m12 - m.m02 * m.m11,
            v,
            det,
        ) as i64,
        y: spec_inv_coord(
            m.m12 * m.m20 - m.m10 * m.m22,
            m.m00 * m.m22 - m.m02 * m.m20,
            m.m02 * m.m10 - m.m00 * m.m12,
            v,
            det,
        ) as i64,
        z: spec_inv_coord(
            m.m10 * m.m21 - m.m11 * m.m20,
            m.m01 * m.m20 - m.m00 * m.m21,
            m.m00 * m.m11 - m.m01 * m.m10,
            v,
            det,
        ) as i64,
    }
}

/// A rotation matrix together with a translation.
#[derive(Debug, Clone, Copy, PartialEq, Eq, Structural)]
pub struct Transformation {
    pub rotation: Matrix3,
    pub translation: Vec3,
}

pub open spec fn transformation_wf(t: Transformation) -> bool {
    matrix_wf(t.rotation) && in_bounds(t.translation, PRIM_BOUND as int)
}

/// A primitive wrapped in a transformation, with its world-space box cached.
#[derive(Debug)]
pub struct TransformedPrim {
    pub transformation: Transformation,
    pub instance: Box<Primitive>,
    pub aabbox: AABBox,
}

pub open spec fn transformed_wf(t: TransformedPrim) -> bool
    decreases t,
{
    &&& transformation_wf(t.transformation)
    &&& primitive_wf(*t.instance)
    &&& t.aabbox == spec_transformed_box(t.transformation, spec_primitive_box(*t.instance))
    &&& aabbox_wf(t.aabbox)
}

/// Shift a point by the translation and clamp to the world.
pub open spec fn spec_shift(p: Vec3, tr: Vec3) -> Vec3 {
    Vec3 {
        x: clamp_coord(p.x + tr.x) as i64,
        y: clamp_coord(p.y + tr.y) as i64,
        z: clamp_coord(p.z + tr.z) as i64,
    }
}

/// Pull a coordinate strictly inside the world bound, leaving room for the
/// box padding.
pub open spec fn spec_pinch_coord(c: i64) -> i64 {
    if c < -(VEC_BOUND - crate::aabox::PAD) {
        (-(VEC_BOUND - crate::aabox::PAD)) as i64
    } else if c > VEC_BOUND - crate::aabox::PAD {
        (VEC_BOUND - crate::aabox::PAD) as i64
    } else {
        c
    }
}

pub open spec fn spec_pinch(p: Vec3) -> Vec3 {
    Vec3 { x: spec_pinch_coord(p.x), y: spec_pinch_coord(p.y), z: spec_pinch_coord(p.z) }
}

/// The world-space box of a transformed primitive: the enclosure of the
/// eight transformed corners of the object-space box, each pinched inside
/// the world bound.
pub open spec fn spec_world_corner(t: Transformation, p: Point3) -> Point3 {
    spec_pinch(spec_shift(spec_apply(t.rotation, p), t.translation))
}

pub open spec fn spec_transformed_box(t: Transformation, inner: AABBox) -> AABBox {
    let cs = crate::aabox::spec_corners(inner);
    spec_enclose(
        spec_enclose(
            spec_enclose(
                spec_enclose(
                    spec_enclose(
                        spec_enclose(
                            spec_enclose(
                                spec_point_box(spec_world_corner(t, cs[0])),
                                spec_point_box(spec_world_corner(t, cs[1])),
                            ),
                            spec_point_box(spec_world_corner(t, cs[2])),
                        ),
                        spec_point_box(spec_world_corner(t, cs[3])),
                    ),
                    spec_point_box(spec_world_corner(t, cs[4])),
                ),
                spec_point_box(spec_world_corner(t, cs[5])),
            ),
            spec_point_box(spec_world_corner(t, cs[6])),
        ),
        spec_point_box(spec_world_corner(t, cs[7])),
    )
}

/// One world-space corner: rotate, translate, pinch.
fn world_corner(t: &Transformation, p: Point3) -> (r: Point3)
    requires
        transformation_wf(*t),
        in_bounds(p, VEC_BOUND as int),
    ensures
        r == spec_world_corner(*t, p),
        in_bounds(r, VEC_BOUND as int - crate::aabox::PAD as int),
{
    pinch(shift(t.rotation.apply(p), t.translation))
}

/// The object-space ray: both origin (after untranslating) and direction
/// mapped through the inverse rotation.
pub open spec fn spec_object_ray(t: Transformation, r: Ray) -> Ray {
    let shifted = Vec3 {
        x: (r.origin.x - t.translation.x) as i64,
        y: (r.origin.y - t.translation.y) as i64,
        z: (r.origin.z - t.translation.z) as i64,
    };
    Ray {
        origin: spec_inv_apply(t.rotation, shifted),
        direction: spec_inv_apply(t.rotation, r.direction),
    }
}

/// The transformed intersection: a singular rotation reports no hit; else
/// intersect in object space and carry the hit point back to world space.
pub open spec fn spec_transformed_hit(tp: TransformedPrim, r: Ray, range: TRange) -> Option<
    HitRecord,
>
    decreases tp,
{
    if spec_det(tp.transformation.rotation) == 0 {
        None
    } else {
        match spec_primitive_hit(*tp.instance, spec_object_ray(tp.transformation, r), range) {
            None => None,
            Some(rec) => Some(
                HitRecord {
                    p: spec_shift(
                        spec_apply(tp.transformation.rotation, rec.p),
                        tp.transformation.translation,
                    ),
                    ..rec
                },
            ),
        }
    }
}

impl Matrix3 {
    /// The identity, `Q`-scaled.
    pub fn identity() -> (m: Matrix3)
        ensures
            m == (Matrix3 {
                m00: Q,
                m01: 0,
                m02: 0,
                m10: 0,
                m11: Q,
                m12: 0,
                m20: 0,
                m21: 0,
                m22: Q,
            }),
            matrix_wf(m),
    {
        Matrix3 { m00: Q, m01: 0, m02: 0, m10: 0, m11: Q, m12: 0, m20: 0, m21: 0, m22: Q }
    }

    /// The determinant, exact in `Q^3` scale.
    pub fn det(&self) -> (d: i128)
        requires
            matrix_wf(*self),
        ensures
            d == spec_det(*self),
    {
        proof {
            lemma_matrix_prods(*self);
            crate::vec3::lemma_prod_bound2(
                self.m00 as int,
                self.m11 * self.m22 - self.m12 * self.m21,
                MAT_BOUND as int,
                0x2000000000,
            );
            crate::vec3::lemma_prod_bound2(
                self.m01 as int,
                self.m12 * self.m20 - self.m10 * self.m22,
                MAT_BOUND as int,
                0x2000000000,
            );
            crate::vec3::lemma_prod_bound2(
                self.m02 as int,
                self.m10 * self.m21 - self.m11 * self.m20,
                MAT_BOUND as int,
                0x2000000000,
            );
        }
        (self.m00 as i128) * ((self.m11 as i128) * (self.m22 as i128) - (self.m12 as i128) * (
        self.m21 as i128)) + (self.m01 as i128) * ((self.m12 as i128) * (self.m20 as i128) - (
        self.m10 as i128) * (self.m22 as i128)) + (self.m02 as i128) * ((self.m10 as i128) * (
        self.m21 as i128) - (self.m11 as i128) * (self.m20 as i128))
    }

    /// Apply the matrix to a vector: fixed-point rotate, floor, clamp.
    pub fn apply(&self, v: Vec3) -> (r: Vec3)
        requires
            matrix_wf(*self),
        ensures
            r == spec_apply(*self, v),
            in_bounds(r, VEC_BOUND as int),
    {
        let x = fwd_coord(self.m00, self.m01, self.m02, v);
        let y = fwd_coord(self.m10, self.m11, self.m12, v);
        let z = fwd_coord(self.m20, self.m21, self.m22, v);
        Vec3 { x, y, z }
    }
}

/// One coordinate of the forward map.
fn fwd_coord(a: i64, b: i64, c: i64, v: Vec3) -> (r: i64)
    requires
        -MAT_BOUND <= a <= MAT_BOUND,
        -MAT_BOUND <= b <= MAT_BOUND,
        -MAT_BOUND <= c <= MAT_BOUND,
    ensures
        r as int == spec_fwd_coord(a as int, b as int, c as int, v),
        -VEC_BOUND <= r <= VEC_BOUND,
{
    proof {
        crate::vec3::lemma_prod_bound2(a as int, v.x as int, MAT_BOUND as int, 0x8000000000000000);
        crate::vec3::lemma_prod_bound2(b as int, v.y as int, MAT_BOUND as int, 0x8000000000000000);
        crate::vec3::lemma_prod_bound2(c as int, v.z as int, MAT_BOUND as int, 0x8000000000000000);
    }
    let num = (a as i128) * (v.x as i128) + (b as i128) * (v.y as i128) + (c as i128) * (v.z
        as i128);
    let d = crate::num::div_floor(num, Q as i128);
    clamp_exec(d)
}

/// Clamp an `i128` coordinate into the world bound.
fn clamp_exec(c: i128) -> (r: i64)
    requires
        -crate::num::DIV_BOUND <= c <= crate::num::DIV_BOUND,
    ensures
        r as int == clamp_coord(c as int),
        -VEC_BOUND <= r <= VEC_BOUND,
{
    let lo = -(VEC_BOUND as i128);
    let hi = VEC_BOUND as i128;
    if c < lo {
        -VEC_BOUND
    } else if c > hi {
        VEC_BOUND
    } else {
        c as i64
    }
}

/// One coordinate of the inverse map (adjugate row over determinant).
fn inv_coord(a: i128, b: i128, c: i128, v: Vec3, det: i128) -> (r: i64)
    requires
        det != 0,
        -0x2000000000 <= a <= 0x2000000000,  // 2 * (2Q)^2 = 2^35
        -0x2000000000 <= b <= 0x2000000000,
        -0x2000000000 <= c <= 0x2000000000,
        -0x100000000000000 <= det <= 0x100000000000000,  // |det| <= 6 * (2Q)^3 < 2^56
        in_bounds(v, 0x10000000),  // the untranslated origin may exceed the world bound
    ensures
        r as int == spec_inv_coord(a as int, b as int, c as int, v, det as int),
        -VEC_BOUND <= r <= VEC_BOUND,
{
    proof {
        crate::vec3::lemma_prod_bound2(a as int, v.x as int, 0x2000000000, 0x10000000);
        crate::vec3::lemma_prod_bound2(b as int, v.y as int, 0x2000000000, 0x10000000);
        crate::vec3::lemma_prod_bound2(c as int, v.z as int, 0x2000000000, 0x10000000);
    }
    proof {
        crate::vec3::lemma_prod_bound2(
            a as int * v.x as int + b as int * v.y as int + c as int * v.z as int,
            Q as int,
            0x60000000000000000,
            0x10000,
        );
    }
    let num = (a * (v.x as i128) + b * (v.y as i128) + c * (v.z as i128)) * (Q as i128);
    let d = if det > 0 {
        crate::num::div_floor(num, det)
    } else {
        crate::num::div_floor(-num, -det)
    };
    clamp_exec(d)
}

impl Transformation {
    pub fn new(rotation: Matrix3, translation: Vec3) -> (t: Transformation)
        requires
            matrix_wf(rotation),
            in_bounds(translation, PRIM_BOUND as int),
        ensures
            t.rotation == rotation,
            t.translation == translation,
            transformation_wf(t),
    {
        Transformation { rotation, translation }
    }
}

impl TransformedPrim {
    /// Wrap a primitive, caching its world-space box.
    #[verifier::rlimit(100)]
    pub fn new(instance: Primitive, transformation: Transformation) -> (t: TransformedPrim)
        requires
            primitive_wf(instance),
            transformation_wf(transformation),
        ensures
            t.transformation == transformation,
            *t.instance == instance,
            transformed_wf(t),
    {
        let inner_box = instance.get_aabbox();
        let corners = inner_box.get_points();
        let p0 = world_corner(&transformation, corners[0]);
        let p1 = world_corner(&transformation, corners[1]);
        let p2 = world_corner(&transformation, corners[2]);
        let p3 = world_corner(&transformation, corners[3]);
        let p4 = world_corner(&transformation, corners[4]);
        let p5 = world_corner(&transformation, corners[5]);
        let p6 = world_corner(&transformation, corners[6]);
        let p7 = world_corner(&transformation, corners[7]);
        let aabbox = AABBox::from_point(p0).enclose(&AABBox::from_point(p1)).enclose(
            &AABBox::from_point(p2),
        ).enclose(&AABBox::from_point(p3)).enclose(&AABBox::from_point(p4)).enclose(
            &AABBox::from_point(p5),
        ).enclose(&AABBox::from_point(p6)).enclose(&AABBox::from_point(p7));
        TransformedPrim { transformation, instance: Box::new(instance), aabbox }
    }

    pub fn get_aabbox(&self) -> (b: AABBox)
        requires
            transformed_wf(*self),
        ensures
            b == self.aabbox,
            aabbox_wf(b),
    {
        self.aabbox
    }

    /// The transformed intersection; see [`spec_transformed_hit`].
    #[verifier::rlimit(100)]
    pub fn hit(&self, r: &Ray, range: TRange) -> (res: Option<HitRecord>)
        requires
            transformed_wf(*self),
            ray_wf(*r),
            t_range_wf(range),
        ensures
            res == spec_transformed_hit(*self, *r, range),
        decreases *self.instance, 1int,
    {
        let m = self.transformation.rotation;
        let det = m.det();
        if det == 0 {
            return None;
        }
        let object_ray = to_object_ray(&self.transformation, det, r);
        match self.instance.hit(&object_ray, range) {
            None => None,
            Some(rec) => {
                let p = shift(m.apply(rec.get_p()), self.transformation.translation);
                Some(
                    HitRecord {
                        p,
                        normal: rec.get_normal(),
                        t: rec.get_t(),
                        u: rec.get_u(),
                        v: rec.get_v(),
                        front_face: rec.is_front_face(),
                        mat: rec.get_material(),
                    },
                )
            },
        }
    }
}

/// The inverse rotation applied to a vector, by adjugate over determinant.
fn inv_apply(m: &Matrix3, det: i128, v: Vec3) -> (r: Vec3)
    requires
        matrix_wf(*m),
        det == spec_det(*m),
        det != 0,
        in_bounds(v, 0x10000000),
    ensures
        r == spec_inv_apply(*m, v),
        in_bounds(r, VEC_BOUND as int),
{
    proof {
        lemma_matrix_prods(*m);
        lemma_det_bound(*m);
    }
    let a0 = (m.m11 as i128) * (m.m22 as i128) - (m.m12 as i128) * (m.m21 as i128);
    let b0 = (m.m02 as i128) * (m.m21 as i128) - (m.m01 as i128) * (m.m22 as i128);
    let c0 = (m.m01 as i128) * (m.m12 as i128) - (m.m02 as i128) * (m.m11 as i128);
    let a1 = (m.m12 as i128) * (m.m20 as i128) - (m.m10 as i128) * (m.m22 as i128);
    let b1 = (m.m00 as i128) * (m.m22 as i128) - (m.m02 as i128) * (m.m20 as i128);
    let c1 = (m.m02 as i128) * (m.m10 as i128) - (m.m00 as i128) * (m.m12 as i128);
    let a2 = (m.m10 as i128) * (m.m21 as i128) - (m.m11 as i128) * (m.m20 as i128);
    let b2 = (m.m01 as i128) * (m.m20 as i128) - (m.m00 as i128) * (m.m21 as i128);
    let c2 = (m.m00 as i128) * (m.m11 as i128) - (m.m01 as i128) * (m.m10 as i128);
    Vec3 {
        x: inv_coord(a0, b0, c0, v, det),
        y: inv_coord(a1, b1, c1, v, det),
        z: inv_coord(a2, b2, c2, v, det),
    }
}

/// The object-space counterpart of a world ray.
fn to_object_ray(t: &Transformation, det: i128, r: &Ray) -> (or: Ray)
    requires
        transformation_wf(*t),
        det == spec_det(t.rotation),
        det != 0,
        ray_wf(*r),
    ensures
        or == spec_object_ray(*t, *r),
        ray_wf(or),
{
    let shifted = r.get_origin().sub(t.translation);
    let origin = inv_apply(&t.rotation, det, shifted);
    let direction = inv_apply(&t.rotation, det, r.get_direction());
    Ray::new(origin, direction)
}

/// Pull a point strictly inside the world bound.
fn pinch(p: Vec3) -> (r: Vec3)
    requires
        in_bounds(p, VEC_BOUND as int),
    ensures
        r == spec_pinch(p),
        in_bounds(r, VEC_BOUND as int - crate::aabox::PAD as int),
{
    let lim = VEC_BOUND - crate::aabox::PAD;
    let x = if p.x < -lim { -lim } else if p.x > lim { lim } else { p.x };
    let y = if p.y < -lim { -lim } else if p.y > lim { lim } else { p.y };
    let z = if p.z < -lim { -lim } else if p.z > lim { lim } else { p.z };
    Vec3 { x, y, z }
}

/// Shift a point by a translation, clamped.
fn shift(p: Vec3, tr: Vec3) -> (r: Vec3)
    requires
        in_bounds(tr, PRIM_BOUND as int),
    ensures
        r == spec_shift(p, tr),
        in_bounds(r, VEC_BOUND as int),
{
    let x = clamp_exec((p.x as i128) + (tr.x as i128));
    let y = clamp_exec((p.y as i128) + (tr.y as i128));
    let z = clamp_exec((p.z as i128) + (tr.z as i128));
    Vec3 { x, y, z }
}

/// Bounds on the pairwise entry products of a well-formed matrix.
proof fn lemma_matrix_prods(m: Matrix3)
    requires
        matrix_wf(m),
    ensures
        -0x1000000000 <= m.m00 * m.m11 <= 0x1000000000,
        -0x1000000000 <= m.m00 * m.m12 <= 0x1000000000,
        -0x1000000000 <= m.m00 * m.m21 <= 0x1000000000,
        -0x1000000000 <= m.m00 * m.m22 <= 0x1000000000,
        -0x1000000000 <= m.m01 * m.m10 <= 0x1000000000,
        -0x1000000000 <= m.m01 * m.m12 <= 0x1000000000,
        -0x1000000000 <= m.m01 * m.m20 <= 0x1000000000,
        -0x1000000000 <= m.m01 * m.m22 <= 0x1000000000,
        -0x1000000000 <= m.m02 * m.m10 <= 0x1000000000,
        -0x1000000000 <= m.m02 * m.m11 <= 0x1000000000,
        -0x1000000000 <= m.m02 * m.m20 <= 0x1000000000,
        -0x1000000000 <= m.m02 * m.m21 <= 0x1000000000,
        -0x1000000000 <= m.m10 * m.m21 <= 0x1000000000,
        -0x1000000000 <= m.m10 * m.m22 <= 0x1000000000,
        -0x1000000000 <= m.m11 * m.m20 <= 0x1000000000,
        -0x1000000000 <= m.m11 * m.m22 <= 0x1000000000,
        -0x1000000000 <= m.m12 * m.m20 <= 0x1000000000,
        -0x1000000000 <= m.m12 * m.m21 <= 0x1000000000,
        -0x2000000000 <= m.m11 * m.m22 - m.m12 * m.m21 <= 0x2000000000,
        -0x2000000000 <= m.m02 * m.m21 - m.m01 * m.m22 <= 0x2000000000,
        -0x2000000000 <= m.m01 * m.m12 - m.m02 * m.m11 <= 0x2000000000,
        -0x2000000000 <= m.m12 * m.m20 - m.m10 * m.m22 <= 0x2000000000,
        -0x2000000000 <= m.m00 * m.m22 - m.m02 * m.m20 <= 0x2000000000,
        -0x2000000000 <= m.m02 * m.m10 - m.m00 * m.m12 <= 0x2000000000,
        -0x2000000000 <= m.m10 * m.m21 - m.m11 * m.m20 <= 0x2000000000,
        -0x2000000000 <= m.m01 * m.m20 - m.m00 * m.m21 <= 0x2000000000,
        -0x2000000000 <= m.m00 * m.m11 - m.m01 * m.m10 <= 0x2000000000,
{
    crate::vec3::lemma_prod_bound(m.m00 as int, m.m11 as int, MAT_BOUND as int);
    crate::vec3::lemma_prod_bound(m.m00 as int, m.m12 as int, MAT_BOUND as int);
    crate::vec3::lemma_prod_bound(m.m00 as int, m.m21 as int, MAT_BOUND as int);
    crate::vec3::lemma_prod_bound(m.m00 as int, m.m22 as int, MAT_BOUND as int);
    crate::vec3::lemma_prod_bound(m.m01 as int, m.m10 as int, MAT_BOUND as int);
    crate::vec3::lemma_prod_bound(m.m01 as int, m.m12 as int, MAT_BOUND as int);
    crate::vec3::lemma_prod_bound(m.m01 as int, m.m20 as int, MAT_BOUND as int);
    crate::vec3::lemma_prod_bound(m.m01 as int, m.m22 as int, MAT_BOUND as int);
    crate::vec3::lemma_prod_bound(m.m02 as int, m.m10 as int, MAT_BOUND as int);
    crate::vec3::lemma_prod_bound(m.m02 as int, m.m11 as int, MAT_BOUND as int);
    crate::vec3::lemma_prod_bound(m.m02 as int, m.m20 as int, MAT_BOUND as int);
    crate::vec3::lemma_prod_bound(m.m02 as int, m.m21 as int, MAT_BOUND as int);
    crate::vec3::lemma_prod_bound(m.m10 as int, m.m21 as int, MAT_BOUND as int);
    crate::vec3::lemma_prod_bound(m.m10 as int, m.m22 as int, MAT_BOUND as int);
    crate::vec3::lemma_prod_bound(m.m11 as int, m.m20 as int, MAT_BOUND as int);
    crate::vec3::lemma_prod_bound(m.m11 as int, m.m22 as int, MAT_BOUND as int);
    crate::vec3::lemma_prod_bound(m.m12 as int, m.m20 as int, MAT_BOUND as int);
    crate::vec3::lemma_prod_bound(m.m12 as int, m.m21 as int, MAT_BOUND as int);
}

/// The determinant of a well-formed matrix is comfortably inside `i128`.
proof fn lemma_det_bound(m: Matrix3)
    requires
        matrix_wf(m),
    ensures
        -0x100000000000000 <= spec_det(m) <= 0x100000000000000,  // 2^56
{
    lemma_matrix_prods(m);
    crate::vec3::lemma_prod_bound2(m.m00 as int, m.m11 * m.m22 - m.m12 * m.m21, MAT_BOUND as int, 0x2000000000);
    crate::vec3::lemma_prod_bound2(m.m01 as int, m.m12 * m.m20 - m.m10 * m.m22, MAT_BOUND as int, 0x2000000000);
    crate::vec3::lemma_prod_bound2(m.m02 as int, m.m10 * m.m21 - m.m11 * m.m20, MAT_BOUND as int, 0x2000000000);
}

} // verus!
