//! Direction densities for importance sampling, in `Q`-scaled fixed point.

use crate::hittable_list::{list_wf, spec_items, spec_list_pdf, HittableList};
use crate::onb::{spec_onb_new, Onb};
use crate::vec3::{in_bounds, spec_dot, Point3, Vec3, Q, VEC_BOUND};
use vstd::prelude::*;

verus! {

/// `1 / (4 * pi)` in `Q` scale.
pub const INV_FOUR_PI: i64 = 5215;

/// The uniform density over the whole sphere of directions.
#[derive(Debug, Clone, Copy, PartialEq, Eq, Structural)]
pub struct SpherePdf;

impl SpherePdf {
    /// Every direction carries the same density, `1 / (4 * pi)`.
    pub fn value(&self, direction: &Vec3) -> (r: i64)
        ensures
            r == INV_FOUR_PI,
    {
        INV_FOUR_PI
    }

    pub fn generate(&self, rng: &mut rand::rngs::SmallRng) -> (v: Vec3)
        ensures
            in_bounds(v, Q as int),
    {
        crate::utils::UnitSphere.sample(rng)
    }
}

/// The cosine density of a hit direction around `w`.
pub open spec fn spec_cosine_value(uvw: Onb, direction: Vec3) -> i64 {
    if direction == (Vec3 { x: 0, y: 0, z: 0 }) {
        0
    } else {
        let nd = crate::onb::spec_normalize_q(direction);
        let cos_q = spec_dot(nd, uvw.w) / (Q as int);
        if cos_q <= 0 {
            0
        } else {
            ((cos_q * Q) / (crate::entities::PI_Q as int)) as i64
        }
    }
}

/// A cosine-weighted density over the hemisphere around a normal.
#[derive(Debug, Clone, Copy, PartialEq, Eq, Structural)]
pub struct CosinePdf {
    pub uvw: Onb,
}

pub open spec fn cosine_pdf_wf(c: CosinePdf) -> bool {
    &&& in_bounds(c.uvw.u, 524288)
    &&& in_bounds(c.uvw.v, Q as int)
    &&& in_bounds(c.uvw.w, Q as int)
}

impl CosinePdf {
    pub fn new(w: Vec3) -> (r: CosinePdf)
        requires
            in_bounds(w, crate::onb::NORM_IN_BOUND as int),
            w != (Vec3 { x: 0, y: 0, z: 0 }),
        ensures
            r.uvw == spec_onb_new(w),
            cosine_pdf_wf(r),
    {
        CosinePdf { uvw: Onb::new(w) }
    }

    /// The density of a direction: its cosine against `w`, over pi, clamped
    /// below at zero.
    pub fn value(&self, direction: &Vec3) -> (r: i64)
        requires
            cosine_pdf_wf(*self),
            in_bounds(*direction, crate::onb::NORM_IN_BOUND as int),
        ensures
            r == spec_cosine_value(self.uvw, *direction),
            0 <= r <= 2 * Q,
    {
        if direction.x == 0 && direction.y == 0 && direction.z == 0 {
            return 0;
        }
        let nd = crate::onb::normalize_q(*direction);
        proof {
            crate::vec3::lemma_dot_bound(nd, self.uvw.w, Q as int);
        }
        let dotv = nd.dot(self.uvw.w);
        let cos_q = crate::num::div_floor(dotv, Q as i128);
        if cos_q <= 0 {
            return 0;
        }
        proof {
            lemma_cosine_div_bounds(dotv as int);
        }
        let v = crate::num::div_floor(cos_q * (Q as i128), crate::entities::PI_Q as i128);
        v as i64
    }

    pub fn generate(&self, rng: &mut rand::rngs::SmallRng) -> (v: Vec3)
        requires
            cosine_pdf_wf(*self),
        ensures
            in_bounds(v, 1048576),
    {
        let c = crate::utils::CosineWeightedHemisphere.sample(rng);
        self.uvw.transform(c)
    }
}

/// Bounds carrying the cosine through its two divisions.
pub proof fn lemma_cosine_div_bounds(dotv: int)
    requires
        -3 * ((Q as int) * (Q as int)) <= dotv <= 3 * ((Q as int) * (Q as int)),
    ensures
        -0x30000 <= dotv / (Q as int) <= 0x30000,
        forall|c: int|
            0 <= c <= 0x30000 ==> 0 <= #[trigger] ((c * Q) / (crate::entities::PI_Q as int)) <= 2
                * Q,
{
    assert(3 * ((Q as int) * (Q as int)) == 0x30000 * (Q as int)) by (nonlinear_arith);
    vstd::arithmetic::div_mod::lemma_div_is_ordered(dotv, 0x30000 * (Q as int), Q as int);
    vstd::arithmetic::div_mod::lemma_div_is_ordered(-0x30000 * (Q as int), dotv, Q as int);
    assert((0x30000 * (Q as int)) / (Q as int) == 0x30000) by {
        vstd::arithmetic::div_mod::lemma_div_multiples_vanish(0x30000, Q as int);
        assert(0x30000 * (Q as int) == (Q as int) * 0x30000) by (nonlinear_arith);
    }
    assert((-0x30000 * (Q as int)) / (Q as int) == -0x30000) by {
        vstd::arithmetic::div_mod::lemma_div_multiples_vanish(-0x30000, Q as int);
        assert(-0x30000 * (Q as int) == (Q as int) * (-0x30000)) by (nonlinear_arith);
    }
    assert forall|c: int| 0 <= c <= 0x30000 implies 0 <= #[trigger] ((c * Q) / (
    crate::entities::PI_Q as int)) <= 2 * Q by {
        vstd::arithmetic::div_mod::lemma_div_pos_is_pos(c * Q, crate::entities::PI_Q as int);
        assert(c * Q <= (crate::entities::PI_Q as int) * (2 * Q)) by (nonlinear_arith)
            requires
                0 <= c <= 0x30000,
        ;
        vstd::arithmetic::div_mod::lemma_multiply_divide_le(
            c * Q,
            crate::entities::PI_Q as int,
            2 * Q as int,
        );
    }
}

/// The density a material hands back for stochastic scattering.
#[derive(Debug, Clone, Copy, PartialEq, Eq, Structural)]
pub enum MaterialPdf {
    Sphere(SpherePdf),
    Cosine(CosinePdf),
}

pub open spec fn material_pdf_wf(p: MaterialPdf) -> bool {
    match p {
        MaterialPdf::Sphere(_) => true,
        MaterialPdf::Cosine(c) => cosine_pdf_wf(c),
    }
}

/// The density of one direction under a material density.
pub open spec fn spec_material_pdf_value(p: MaterialPdf, direction: Vec3) -> i64 {
    match p {
        MaterialPdf::Sphere(_) => INV_FOUR_PI,
        MaterialPdf::Cosine(c) => spec_cosine_value(c.uvw, direction),
    }
}

impl MaterialPdf {
    pub fn value(&self, direction: &Vec3) -> (r: i64)
        requires
            material_pdf_wf(*self),
            in_bounds(*direction, crate::onb::NORM_IN_BOUND as int),
        ensures
            r == spec_material_pdf_value(*self, *direction),
            0 <= r <= 2 * Q,
    {
        match self {
            MaterialPdf::Sphere(p) => p.value(direction),
            MaterialPdf::Cosine(p) => p.value(direction),
        }
    }

    pub fn generate(&self, rng: &mut rand::rngs::SmallRng) -> (v: Vec3)
        requires
            material_pdf_wf(*self),
        ensures
            in_bounds(v, 1048576),
    {
        match self {
            MaterialPdf::Sphere(p) => p.generate(rng),
            MaterialPdf::Cosine(p) => p.generate(rng),
        }
    }
}

/// The density of directions toward a collection of light geometry.
#[derive(Debug)]
pub struct HittablePdf<'a> {
    pub objects: &'a HittableList,
    pub origin: Point3,
}

impl<'a> HittablePdf<'a> {
    pub fn new(objects: &'a HittableList, origin: Point3) -> (r: HittablePdf<'a>)
        ensures
            r.objects == objects,
            r.origin == origin,
    {
        HittablePdf { objects, origin }
    }

    pub fn value(&self, direction: &Vec3) -> (r: i64)
        requires
            list_wf(*self.objects),
            self.objects.len > 0,
            in_bounds(self.origin, VEC_BOUND as int),
            in_bounds(*direction, VEC_BOUND as int),
        ensures
            r == spec_list_pdf(spec_items(*self.objects), self.origin, *direction),
            0 <= r <= 0x10000000000,
    {
        self.objects.pdf_value(self.origin, *direction)
    }

    /// A direction toward a uniformly chosen piece of the light geometry:
    /// every outcome is a sample of one of the stored primitives.
    pub fn generate(&self, rng: &mut rand::rngs::SmallRng) -> (v: Vec3)
        requires
            list_wf(*self.objects),
            self.objects.len > 0,
            in_bounds(self.origin, VEC_BOUND as int),
        ensures
            in_bounds(v, VEC_BOUND as int),
            exists|k: int|
                0 <= k < spec_items(*self.objects).len()
                    && crate::entities::is_primitive_sample(
                    #[trigger] spec_items(*self.objects)[k],
                    self.origin,
                    v,
                ),
    {
        self.objects.random(self.origin, rng)
    }
}

/// An even mixture of a light-geometry density and a material density: its
/// value is the exact average of the two, and sampling follows a fair coin.
#[derive(Debug)]
pub struct MixturePdf<'a, 'b, 'c> {
    pub pdf1: &'a HittablePdf<'c>,
    pub pdf2: &'b MaterialPdf,
}

impl<'a, 'b, 'c> MixturePdf<'a, 'b, 'c> {
    pub fn new(pdf1: &'a HittablePdf<'c>, pdf2: &'b MaterialPdf) -> (r: MixturePdf<'a, 'b, 'c>)
        ensures
            r.pdf1 == pdf1,
            r.pdf2 == pdf2,
    {
        MixturePdf { pdf1, pdf2 }
    }

    /// The mixture density: exactly half of each component's density. This
    /// is what makes the even mixture a density again: it preserves total
    /// mass across the two components.
    pub fn value(&self, direction: &Vec3) -> (r: i64)
        requires
            list_wf(*self.pdf1.objects),
            self.pdf1.objects.len > 0,
            in_bounds(self.pdf1.origin, VEC_BOUND as int),
            material_pdf_wf(*self.pdf2),
            in_bounds(*direction, VEC_BOUND as int),
        ensures
            r as int == (spec_list_pdf(spec_items(*self.pdf1.objects), self.pdf1.origin, *direction)
                + spec_material_pdf_value(*self.pdf2, *direction)) / 2,
            0 <= r,
    {
        let v1 = self.pdf1.value(direction);
        let v2 = self.pdf2.value(direction);
        proof {
            vstd::arithmetic::div_mod::lemma_div_pos_is_pos(v1 as int + v2 as int, 2);
        }
        let s = crate::num::div_floor((v1 as i128) + (v2 as i128), 2);
        s as i64
    }

    /// Sample: a fair coin picks which component generates the direction.
    /// Every outcome is either a sample of a stored light primitive or a
    /// unit-scale direction of the material's own density.
    pub fn generate(&self, rng: &mut rand::rngs::SmallRng) -> (v: Vec3)
        requires
            list_wf(*self.pdf1.objects),
            self.pdf1.objects.len > 0,
            in_bounds(self.pdf1.origin, VEC_BOUND as int),
            material_pdf_wf(*self.pdf2),
        ensures
            in_bounds(v, VEC_BOUND as int),
            (exists|k: int|
                0 <= k < spec_items(*self.pdf1.objects).len()
                    && crate::entities::is_primitive_sample(
                    #[trigger] spec_items(*self.pdf1.objects)[k],
                    self.pdf1.origin,
                    v,
                )) || in_bounds(v, 1048576),
    {
        if crate::rng::random_coin(rng) {
            self.pdf1.generate(rng)
        } else {
            self.pdf2.generate(rng)
        }
    }
}

} // verus!
