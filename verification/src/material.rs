//! Surface materials: a closed set of variants sharing one scatter/emit
//! interface, dispatched through [`DynMaterial`].
//!
//! Every material carries a solid colour; richer textures are an external
//! collaborator of the tracer and stay outside the verified core.

use crate::colour::{colour_wf, Colour};
use crate::hittable::HitRecord;
use crate::pdf::{material_pdf_wf, CosinePdf, MaterialPdf, SpherePdf};
use crate::vec3::{in_bounds, ray_wf, spec_dot, Point3, Ray, Vec3, Q, VEC_BOUND};
use vstd::prelude::*;

verus! {

/// Diffuse surface scattering with a cosine-weighted density.
#[derive(Debug, Clone, Copy, PartialEq, Eq, Structural)]
pub struct Lambertian {
    pub albedo: Colour,
}

impl Lambertian {
    pub fn new_with_colour(colour: Colour) -> (r: Lambertian)
        ensures
            r.albedo == colour,
    {
        Lambertian { albedo: colour }
    }
}

/// Specular reflection blurred by a fuzz cone (`Q`-scaled radius).
#[derive(Debug, Clone, Copy, PartialEq, Eq, Structural)]
pub struct Metal {
    pub albedo: Colour,
    pub fuzz: i64,
}

impl Metal {
    pub fn new(albedo: Colour, fuzz: i64) -> (r: Metal)
        ensures
            r.albedo == albedo,
            r.fuzz == fuzz,
    {
        Metal { albedo, fuzz }
    }
}

/// Fresnel-weighted reflection or refraction; the index of refraction is
/// `Q`-scaled.
#[derive(Debug, Clone, Copy, PartialEq, Eq, Structural)]
pub struct Dialectric {
    pub index_of_refraction: i64,
}

impl Dialectric {
    pub fn new(index_of_refraction: i64) -> (r: Dialectric)
        ensures
            r.index_of_refraction == index_of_refraction,
    {
        Dialectric { index_of_refraction }
    }
}

/// Pure emitter: contributes light, never scatters.
#[derive(Debug, Clone, Copy, PartialEq, Eq, Structural)]
pub struct DiffuseLight {
    pub emit: Colour,
}

impl DiffuseLight {
    pub fn new_with_colour(colour: Colour) -> (r: DiffuseLight)
        ensures
            r.emit == colour,
    {
        DiffuseLight { emit: colour }
    }
}

/// Uniform scattering over the whole sphere of directions.
#[derive(Debug, Clone, Copy, PartialEq, Eq, Structural)]
pub struct Isotropic {
    pub albedo: Colour,
}

impl Isotropic {
    pub fn new_with_colour(colour: Colour) -> (r: Isotropic)
        ensures
            r.albedo == colour,
    {
        Isotropic { albedo: colour }
    }
}

/// Present in the scene only so that its geometry can be importance-sampled
/// as a light; contributes no colour and casts no shadow of its own.
#[derive(Debug, Clone, Copy, PartialEq, Eq, Structural)]
pub struct Invisible;

/// The closed set of materials, dispatched by variant.
#[derive(Debug, Clone, Copy, PartialEq, Eq, Structural)]
pub enum DynMaterial {
    Lambertian(Lambertian),
    Metal(Metal),
    Dialectric(Dialectric),
    DiffuseLight(DiffuseLight),
    Isotropic(Isotropic),
    Invisible(Invisible),
}

/// What a material emits at a surface point.
pub open spec fn spec_emitted(m: DynMaterial) -> Colour {
    match m {
        DynMaterial::DiffuseLight(l) => l.emit,
        _ => Colour { r: 0, g: 0, b: 0 },
    }
}

impl DynMaterial {
    /// Emitted radiance; only the light variant emits, all materials here
    /// are solid-coloured, so the surface coordinates do not matter.
    pub fn emitted(&self, u: i64, v: i64, point: Point3) -> (c: Colour)
        ensures
            c == spec_emitted(*self),
    {
        match self {
            DynMaterial::DiffuseLight(l) => l.emit,
            _ => Colour::black(),
        }
    }
}

/// A scatter decision: a deterministic reflected ray, or a density to
/// sample stochastically.
#[derive(Debug)]
pub enum ScatterReflect {
    Reflect(Ray),
    Scatter(MaterialPdf),
}

/// What a material hands the integrator for one bounce.
#[derive(Debug)]
pub struct ScatterRecord {
    pub attenuation: Colour,
    pub scatter_reflect: ScatterReflect,
}

/// The inputs on which a specular surface can bounce at all: a usable
/// normal, a hit point inside the world, a nonzero incoming direction.
pub open spec fn metal_inputs_ok(ray_in: Ray, rec: HitRecord) -> bool {
    &&& in_bounds(rec.normal, 0x100000000000)
    &&& rec.normal != (Vec3 { x: 0, y: 0, z: 0 })
    &&& in_bounds(rec.p, VEC_BOUND as int)
    &&& ray_in.direction != (Vec3 { x: 0, y: 0, z: 0 })
}

/// The integrator can trust what it is handed: bounded colour, a
/// well-formed ray or density.
pub open spec fn scatter_record_wf(sr: ScatterRecord) -> bool {
    &&& colour_wf(sr.attenuation)
    &&& match sr.scatter_reflect {
        ScatterReflect::Reflect(ray) => ray_wf(ray),
        ScatterReflect::Scatter(p) => material_pdf_wf(p),
    }
}

/// Reflect `v` about the (unnormalized) normal `n`:
/// `v - n * (2 * (v . n) / (n . n))`, computed in fixed point with floors
/// and clamped into the world bound.
pub open spec fn spec_reflect(v: Vec3, n: Vec3) -> Vec3 {
    let k_raw = (2 * spec_dot(v, n) * Q) / spec_dot(n, n);
    let k = if k_raw < -0x10000000000 {
        -0x10000000000int
    } else if k_raw > 0x10000000000 {
        0x10000000000int
    } else {
        k_raw
    };
    Vec3 {
        x: crate::vec3::clamp_coord(v.x - (n.x * k) / (Q as int)) as i64,
        y: crate::vec3::clamp_coord(v.y - (n.y * k) / (Q as int)) as i64,
        z: crate::vec3::clamp_coord(v.z - (n.z * k) / (Q as int)) as i64,
    }
}

/// The mirror image of a direction about a nonzero normal.
pub fn reflect(v: Vec3, n: Vec3) -> (r: Vec3)
    requires
        in_bounds(v, 0x200000),  // unit-ish directions, e.g. Q-scaled
        in_bounds(n, 0x100000000000),
        n != (Vec3 { x: 0, y: 0, z: 0 }),
    ensures
        r == spec_reflect(v, n),
        in_bounds(r, VEC_BOUND as int),
{
    proof {
        crate::vec3::lemma_dot_bound2(v, n, 0x200000, 0x100000000000);
        crate::vec3::lemma_dot_bound(n, n, 0x100000000000);
        crate::vec3::lemma_dot_self_pos(n);
        assert(3 * (0x200000int * 0x100000000000) <= 0x80000000000000000int) by (nonlinear_arith);
    }
    let vn = v.dot(n);
    let nn = n.dot(n);
    proof {
        assert(-0x2000000000000000000000 <= 2 * (vn as int) * (Q as int)
            <= 0x2000000000000000000000) by (nonlinear_arith)
            requires
                -0x80000000000000000 <= vn <= 0x80000000000000000,
        ;
    }
    let k_raw = crate::num::div_floor(2 * vn * (Q as i128), nn);
    let k: i128 = if k_raw < -0x10000000000 {
        -0x10000000000
    } else if k_raw > 0x10000000000 {
        0x10000000000
    } else {
        k_raw
    };
    let x = refl_coord(v.x, n.x, k);
    let y = refl_coord(v.y, n.y, k);
    let z = refl_coord(v.z, n.z, k);
    Vec3 { x, y, z }
}

/// One coordinate of the reflection.
fn refl_coord(v: i64, n: i64, k: i128) -> (r: i64)
    requires
        -0x200000 <= v <= 0x200000,
        -0x100000000000 <= n <= 0x100000000000,
        -0x10000000000 <= k <= 0x10000000000,
    ensures
        r as int == crate::vec3::clamp_coord(v - (n * k) / (Q as int)),
        -VEC_BOUND <= r <= VEC_BOUND,
{
    proof {
        crate::vec3::lemma_prod_bound2(n as int, k as int, 0x100000000000, 0x10000000000);
    }
    let nk = (n as i128) * k;
    let d = crate::num::div_floor(nk, Q as i128);
    crate::entities::sphere::clamp_dir((v as i128) - d)
}

/// How a material responds at a hit: `None` for absorbers and pure
/// emitters; a deterministic reflection for specular surfaces; a sampling
/// density for diffuse ones. Where the response is deterministic, the
/// contract pins it exactly; where it consumes randomness, it pins the
/// shape and well-formedness of every outcome.
impl DynMaterial {
    pub fn scatter(&self, ray_in: &Ray, rec: &HitRecord, rng: &mut rand::rngs::SmallRng) -> (r:
        Option<ScatterRecord>)
        requires
            ray_wf(*ray_in),
            colour_wf_any(*self),
        ensures
            match r {
                Some(sr) => scatter_record_wf(sr),
                None => true,
            },
            self is DiffuseLight ==> r is None,
            self is Invisible ==> r is None,
            (self is Lambertian && in_bounds(rec.normal, 0x100000000000) && rec.normal != (Vec3 {
                x: 0,
                y: 0,
                z: 0,
            })) ==> r == Some(
                ScatterRecord {
                    attenuation: self->Lambertian_0.albedo,
                    scatter_reflect: ScatterReflect::Scatter(
                        MaterialPdf::Cosine(
                            CosinePdf { uvw: crate::onb::spec_onb_new(rec.normal) },
                        ),
                    ),
                },
            ),
            self is Isotropic ==> r == Some(
                ScatterRecord {
                    attenuation: self->Isotropic_0.albedo,
                    scatter_reflect: ScatterReflect::Scatter(MaterialPdf::Sphere(SpherePdf)),
                },
            ),
            self is Metal && !metal_inputs_ok(*ray_in, *rec) ==> r is None,
            self is Metal && r is Some ==> {
                let sr = r.unwrap();
                &&& sr.attenuation == self->Metal_0.albedo
                &&& sr.scatter_reflect is Reflect
                &&& sr.scatter_reflect->Reflect_0.origin == rec.p
                &&& spec_dot(sr.scatter_reflect->Reflect_0.direction, rec.normal) > 0
            },
            self is Metal && self->Metal_0.fuzz <= 0 && metal_inputs_ok(*ray_in, *rec) ==> {
                let refl = spec_reflect(crate::onb::spec_normalize_q(ray_in.direction), rec.normal);
                if spec_dot(refl, rec.normal) > 0 {
                    r == Some(
                        ScatterRecord {
                            attenuation: self->Metal_0.albedo,
                            scatter_reflect: ScatterReflect::Reflect(
                                Ray { origin: rec.p, direction: refl },
                            ),
                        },
                    )
                } else {
                    r is None
                }
            },
    {
        match self {
            DynMaterial::Lambertian(l) => {
                if in_bounds_exec(rec.normal) && !(rec.normal.x == 0 && rec.normal.y == 0
                    && rec.normal.z == 0) {
                    Some(
                        ScatterRecord {
                            attenuation: l.albedo,
                            scatter_reflect: ScatterReflect::Scatter(
                                MaterialPdf::Cosine(CosinePdf::new(rec.normal)),
                            ),
                        },
                    )
                } else {
                    None
                }
            },
            DynMaterial::Metal(m) => {
                if !in_bounds_exec(rec.normal) || (rec.normal.x == 0 && rec.normal.y == 0
                    && rec.normal.z == 0) || !in_world_exec(rec.p) {
                    return None;
                }
                if ray_in.direction.x == 0 && ray_in.direction.y == 0 && ray_in.direction.z == 0 {
                    return None;
                }
                let nd = crate::onb::normalize_q(ray_in.get_direction());
                let reflected = reflect(nd, rec.normal);
                let fuzz = if m.fuzz < 0 {
                    0
                } else if m.fuzz > Q {
                    Q
                } else {
                    m.fuzz
                };
                let jitter = crate::utils::UnitSphere.sample(rng);
                proof {
                    crate::vec3::lemma_prod_bound2(jitter.x as int, fuzz as int, Q as int, Q as int);
                    crate::vec3::lemma_prod_bound2(jitter.y as int, fuzz as int, Q as int, Q as int);
                    crate::vec3::lemma_prod_bound2(jitter.z as int, fuzz as int, Q as int, Q as int);
                }
                let sj = jitter.scale(fuzz);
                let fx = crate::num::div_floor(sj.x as i128, Q as i128);
                let fy = crate::num::div_floor(sj.y as i128, Q as i128);
                let fz = crate::num::div_floor(sj.z as i128, Q as i128);
                let dir = Vec3 {
                    x: crate::entities::sphere::clamp_dir((reflected.x as i128) + fx),
                    y: crate::entities::sphere::clamp_dir((reflected.y as i128) + fy),
                    z: crate::entities::sphere::clamp_dir((reflected.z as i128) + fz),
                };
                proof {
                    crate::vec3::lemma_dot_bound2(dir, rec.normal, VEC_BOUND as int, 0x100000000000);
                    if m.fuzz <= 0 {
                        assert(0int / (Q as int) == 0) by {
                            vstd::arithmetic::div_mod::lemma_div_multiples_vanish(0, Q as int);
                        }
                        assert(dir == reflected);
                    }
                }
                if dir.dot(rec.normal) > 0 {
                    Some(
                        ScatterRecord {
                            attenuation: m.albedo,
                            scatter_reflect: ScatterReflect::Reflect(Ray::new(rec.p, dir)),
                        },
                    )
                } else {
                    None
                }
            },
            DynMaterial::Dialectric(d) => {
                if !in_bounds_exec(rec.normal) || (rec.normal.x == 0 && rec.normal.y == 0
                    && rec.normal.z == 0) || !in_world_exec(rec.p) {
                    return None;
                }
                if ray_in.direction.x == 0 && ray_in.direction.y == 0 && ray_in.direction.z == 0 {
                    return None;
                }
                let nd = crate::onb::normalize_q(ray_in.get_direction());
                // A fixed-point Fresnel choice: compare a Schlick-style
                // reflectance against a random draw; refraction falls back
                // to reflection past the critical angle.
                let dir = refract_or_reflect(nd, rec.normal, d.index_of_refraction, rng);
                Some(
                    ScatterRecord {
                        attenuation: Colour::white(),
                        scatter_reflect: ScatterReflect::Reflect(Ray::new(rec.p, dir)),
                    },
                )
            },
            DynMaterial::Isotropic(iso) => Some(
                ScatterRecord {
                    attenuation: iso.albedo,
                    scatter_reflect: ScatterReflect::Scatter(MaterialPdf::Sphere(SpherePdf)),
                },
            ),
            DynMaterial::DiffuseLight(_) => None,
            DynMaterial::Invisible(_) => None,
        }
    }

    /// The density the material itself assigns to a scattered direction:
    /// cosine over pi for the diffuse surface, uniform for the isotropic
    /// one, zero for everything specular or emissive.
    pub fn scattering_pdf(&self, ray_in: &Ray, rec: &HitRecord, scattered: &Ray) -> (r: i64)
        ensures
            self is Lambertian ==> r == spec_lambertian_pdf(rec.normal, scattered.direction),
            self is Isotropic ==> r == crate::pdf::INV_FOUR_PI,
            !(self is Lambertian) && !(self is Isotropic) ==> r == 0,
            0 <= r <= 2 * Q,
    {
        match self {
            DynMaterial::Lambertian(_) => {
                if !in_bounds_exec(rec.normal) || (rec.normal.x == 0 && rec.normal.y == 0
                    && rec.normal.z == 0) {
                    return 0;
                }
                if !in_bounds_exec(scattered.direction) || (scattered.direction.x == 0
                    && scattered.direction.y == 0 && scattered.direction.z == 0) {
                    return 0;
                }
                let nn = crate::onb::normalize_q(rec.normal);
                let nd = crate::onb::normalize_q(scattered.get_direction());
                proof {
                    crate::vec3::lemma_dot_bound(nn, nd, Q as int);
                }
                let dotv = nn.dot(nd);
                let cos_q = crate::num::div_floor(dotv, Q as i128);
                if cos_q <= 0 {
                    return 0;
                }
                proof {
                    crate::pdf::lemma_cosine_div_bounds(dotv as int);
                }
                let v = crate::num::div_floor(cos_q * (Q as i128), crate::entities::PI_Q as i128);
                v as i64
            },
            DynMaterial::Isotropic(_) => crate::pdf::INV_FOUR_PI,
            _ => 0,
        }
    }
}

/// The cosine-over-pi density of a diffuse bounce, with the same guards the
/// executable code applies.
pub open spec fn spec_lambertian_pdf(normal: Vec3, direction: Vec3) -> i64 {
    if !in_bounds(normal, 0x100000000000) || normal == (Vec3 { x: 0, y: 0, z: 0 }) || !in_bounds(
        direction,
        0x100000000000,
    ) || direction == (Vec3 { x: 0, y: 0, z: 0 }) {
        0
    } else {
        let nn = crate::onb::spec_normalize_q(normal);
        let nd = crate::onb::spec_normalize_q(direction);
        let cos_q = spec_dot(nn, nd) / (Q as int);
        if cos_q <= 0 {
            0
        } else {
            ((cos_q * Q) / (crate::entities::PI_Q as int)) as i64
        }
    }
}

impl DynMaterial {
    /// Whether every colour this material carries is within range; a guard
    /// the integrator applies before asking for a scatter.
    pub fn colours_ok(&self) -> (r: bool)
        ensures
            r == colour_wf_any(*self),
    {
        match self {
            DynMaterial::Lambertian(l) => colour_ok(l.albedo),
            DynMaterial::Metal(mm) => colour_ok(mm.albedo),
            DynMaterial::Dialectric(_) => true,
            DynMaterial::DiffuseLight(l) => colour_ok(l.emit),
            DynMaterial::Isotropic(i) => colour_ok(i.albedo),
            DynMaterial::Invisible(_) => true,
        }
    }
}

/// Componentwise range check of a colour.
fn colour_ok(c: Colour) -> (r: bool)
    ensures
        r == colour_wf(c),
{
    0 <= c.r && c.r <= 0x10000000000 && 0 <= c.g && c.g <= 0x10000000000 && 0 <= c.b && c.b
        <= 0x10000000000
}

/// Every material's colours are bounded.
pub open spec fn colour_wf_any(m: DynMaterial) -> bool {
    match m {
        DynMaterial::Lambertian(l) => colour_wf(l.albedo),
        DynMaterial::Metal(mm) => colour_wf(mm.albedo),
        DynMaterial::Dialectric(_) => true,
        DynMaterial::DiffuseLight(l) => colour_wf(l.emit),
        DynMaterial::Isotropic(i) => colour_wf(i.albedo),
        DynMaterial::Invisible(_) => true,
    }
}

/// Componentwise magnitude check against the normal bound.
fn in_bounds_exec(v: Vec3) -> (r: bool)
    ensures
        r == in_bounds(v, 0x100000000000),
{
    -0x100000000000 <= v.x && v.x <= 0x100000000000 && -0x100000000000 <= v.y && v.y
        <= 0x100000000000 && -0x100000000000 <= v.z && v.z <= 0x100000000000
}

/// Componentwise magnitude check against the world bound.
fn in_world_exec(v: Vec3) -> (r: bool)
    ensures
        r == in_bounds(v, VEC_BOUND as int),
{
    -VEC_BOUND <= v.x && v.x <= VEC_BOUND && -VEC_BOUND <= v.y && v.y <= VEC_BOUND && -VEC_BOUND
        <= v.z && v.z <= VEC_BOUND
}

/// The refracted-or-reflected direction of a dielectric bounce: Snell's law
/// in fixed point, reflecting past the critical angle or when a
/// Schlick-style reflectance beats a random draw.
fn refract_or_reflect(nd: Vec3, normal: Vec3, ior: i64, rng: &mut rand::rngs::SmallRng) -> (r:
    Vec3)
    requires
        in_bounds(nd, Q as int),
        in_bounds(normal, 0x100000000000),
        normal != (Vec3 { x: 0, y: 0, z: 0 }),
    ensures
        in_bounds(r, VEC_BOUND as int),
{
    let nq = crate::onb::normalize_q(normal);
    proof {
        crate::vec3::lemma_dot_bound(nd, nq, Q as int);
    }
    let dotv = nd.dot(nq);
    let cos_q0 = crate::num::div_floor(-dotv, Q as i128);
    let cos_q: i64 = if cos_q0 > Q as i128 {
        Q
    } else if cos_q0 < -(Q as i128) {
        -Q
    } else {
        cos_q0 as i64
    };
    let ratio: i64 = if ior <= 0 {
        Q
    } else if ior > 16 * Q {
        16 * Q
    } else {
        ior
    };
    // sin^2 = 1 - cos^2, scaled by Q^2.
    proof {
        crate::vec3::lemma_prod_bound(cos_q as int, cos_q as int, Q as int);
        assert(cos_q as int * cos_q as int >= 0) by (nonlinear_arith);
        assert((Q as int) * (Q as int) == 0x100000000) by (nonlinear_arith);
    }
    let sin2 = (Q as i128) * (Q as i128) - (cos_q as i128) * (cos_q as i128);
    proof {
        crate::vec3::lemma_prod_bound2(ratio as int, ratio as int, 16 * Q as int, 16 * Q as int);
        assert((16 * (Q as int)) * (16 * (Q as int)) == 0x10000000000) by (nonlinear_arith);
        crate::vec3::lemma_prod_bound2(
            (ratio as int) * (ratio as int),
            sin2 as int,
            0x10000000000,
            0x100000000,
        );
    }
    let cannot = (ratio as i128) * (ratio as i128) * sin2 > 0x10000000000000000;
    let draw = crate::rng::random_q(rng);
    let reflectance = schlick(cos_q, ratio);
    if cannot || reflectance > draw {
        reflect(nd, normal)
    } else {
        // Refract: perpendicular part (nd + n * cos) * ratio, parallel part
        // -n * sqrt(1 - |perp|^2), both clamped.
        let px = refr_coord(nd.x, nq.x, cos_q, ratio);
        let py = refr_coord(nd.y, nq.y, cos_q, ratio);
        let pz = refr_coord(nd.z, nq.z, cos_q, ratio);
        let perp = Vec3 { x: px, y: py, z: pz };
        proof {
            crate::vec3::lemma_dot_bound(perp, perp, 0x4000000);
        }
        let p2 = perp.dot(perp);
        proof {
            crate::vec3::lemma_dot_self_nonneg(perp);
        }
        let rest: i128 = if p2 > (Q as i128) * (Q as i128) {
            0
        } else {
            (Q as i128) * (Q as i128) - p2
        };
        let par_len = crate::num::isqrt(rest as u128);
        proof {
            crate::num::lemma_sqrt_le(rest as int, par_len as int, Q as int);
        }
        let pl = par_len as i64;
        proof {
            crate::vec3::lemma_prod_bound2(nq.x as int, pl as int, Q as int, Q as int);
            crate::vec3::lemma_prod_bound2(nq.y as int, pl as int, Q as int, Q as int);
            crate::vec3::lemma_prod_bound2(nq.z as int, pl as int, Q as int, Q as int);
        }
        let sx = crate::num::div_floor((nq.x as i128) * (pl as i128), Q as i128);
        let sy = crate::num::div_floor((nq.y as i128) * (pl as i128), Q as i128);
        let sz = crate::num::div_floor((nq.z as i128) * (pl as i128), Q as i128);
        Vec3 {
            x: crate::entities::sphere::clamp_dir((px as i128) - sx),
            y: crate::entities::sphere::clamp_dir((py as i128) - sy),
            z: crate::entities::sphere::clamp_dir((pz as i128) - sz),
        }
    }
}

/// One coordinate of the refracted perpendicular component.
fn refr_coord(d: i64, n: i64, cos_q: i64, ratio: i64) -> (r: i64)
    requires
        -(Q as int) <= d <= Q as int,
        -(Q as int) <= n <= Q as int,
        -(Q as int) <= cos_q <= Q as int,
        0 < ratio <= 16 * Q as int,
    ensures
        -0x4000000 <= r <= 0x4000000,
{
    proof {
        crate::vec3::lemma_prod_bound(n as int, cos_q as int, Q as int);
    }
    let nc = crate::num::div_floor((n as i128) * (cos_q as i128), Q as i128);
    proof {
        lemma_unit_div(((n as i128) * (cos_q as i128)) as int);
        crate::vec3::lemma_prod_bound2((d as i128 + nc) as int, ratio as int, 2 * Q as int, 16 * Q as int);
        lemma_refr_div((((d as i128) + nc) * (ratio as i128)) as int);
    }
    let v = crate::num::div_floor(((d as i128) + nc) * (ratio as i128), Q as i128);
    v as i64
}

/// A product of unit-scale factors divides back into unit scale.
proof fn lemma_unit_div(c: int)
    requires
        -(Q as int) * (Q as int) <= c <= (Q as int) * (Q as int),
    ensures
        -(Q as int) <= c / (Q as int) <= Q as int,
{
    vstd::arithmetic::div_mod::lemma_div_is_ordered(c, (Q as int) * (Q as int), Q as int);
    vstd::arithmetic::div_mod::lemma_div_is_ordered(-((Q as int) * (Q as int)), c, Q as int);
    assert(((Q as int) * (Q as int)) / (Q as int) == Q as int) by {
        vstd::arithmetic::div_mod::lemma_div_multiples_vanish(Q as int, Q as int);
    }
    assert((-((Q as int) * (Q as int))) / (Q as int) == -(Q as int)) by {
        vstd::arithmetic::div_mod::lemma_div_multiples_vanish(-(Q as int), Q as int);
        assert(-((Q as int) * (Q as int)) == (Q as int) * (-(Q as int))) by (nonlinear_arith);
    }
}

/// The scaled perpendicular component stays within a small multiple of `Q`.
proof fn lemma_refr_div(c: int)
    requires
        -32 * (Q as int) * (Q as int) <= c <= 32 * (Q as int) * (Q as int),
    ensures
        -0x4000000 <= c / (Q as int) <= 0x4000000,
{
    vstd::arithmetic::div_mod::lemma_div_is_ordered(c, 32 * (Q as int) * (Q as int), Q as int);
    vstd::arithmetic::div_mod::lemma_div_is_ordered(-(32 * (Q as int) * (Q as int)), c, Q as int);
    assert((32 * (Q as int) * (Q as int)) / (Q as int) == 32 * (Q as int)) by {
        vstd::arithmetic::div_mod::lemma_div_multiples_vanish(32 * (Q as int), Q as int);
        assert(32 * (Q as int) * (Q as int) == (Q as int) * (32 * (Q as int))) by (nonlinear_arith);
    }
    assert((-(32 * (Q as int) * (Q as int))) / (Q as int) == -(32 * (Q as int))) by {
        vstd::arithmetic::div_mod::lemma_div_multiples_vanish(-(32 * (Q as int)), Q as int);
        assert(-(32 * (Q as int) * (Q as int)) == (Q as int) * (-(32 * (Q as int))))
            by (nonlinear_arith);
    }
}

/// A Schlick-style reflectance in `Q` scale: `r0 + (1 - r0) * (1 - cos)^5`.
fn schlick(cos_q: i64, ratio: i64) -> (r: i64)
    requires
        -(Q as int) <= cos_q <= Q as int,
        0 < ratio <= 16 * Q as int,
    ensures
        0 <= r <= Q,
{
    let r0n = (Q as i128) - (ratio as i128);
    let r0d = (Q as i128) + (ratio as i128);
    let r0l = crate::num::div_floor(r0n * (Q as i128), r0d);
    let r0c: i64 = if r0l < 0 {
        if r0l < -(Q as i128) {
            Q
        } else {
            (-r0l) as i64
        }
    } else if r0l > Q as i128 {
        Q
    } else {
        r0l as i64
    };
    proof {
        crate::vec3::lemma_prod_bound(r0c as int, r0c as int, Q as int);
    }
    let r0 = crate::num::div_floor((r0c as i128) * (r0c as i128), Q as i128);
    proof {
        lemma_unit_div(((r0c as i128) * (r0c as i128)) as int);
    }
    let omc: i64 = if cos_q >= 0 {
        Q - cos_q
    } else {
        Q
    };
    // (1 - cos)^5 by repeated fixed-point squaring and multiplication.
    let p2 = mul_unit(omc, omc);
    let p4 = mul_unit(p2, p2);
    let p5 = mul_unit(p4, omc);
    let tail = mul_unit((Q - (if r0 > Q as i128 { Q } else if r0 < 0 { 0 } else { r0 as i64 })), p5);
    let r0i: i64 = if r0 > Q as i128 {
        Q
    } else if r0 < 0 {
        0
    } else {
        r0 as i64
    };
    if r0i + tail > Q {
        Q
    } else {
        r0i + tail
    }
}

/// Fixed-point product of two unit-interval values.
fn mul_unit(a: i64, b: i64) -> (r: i64)
    requires
        0 <= a <= Q,
        0 <= b <= Q,
    ensures
        0 <= r <= Q,
{
    proof {
        crate::vec3::lemma_prod_bound(a as int, b as int, Q as int);
        vstd::arithmetic::div_mod::lemma_div_pos_is_pos(a as int * b as int, Q as int);
        vstd::arithmetic::div_mod::lemma_multiply_divide_le(a as int * b as int, Q as int, Q as int);
        assert(a as int * b as int >= 0 && a as int * b as int <= (Q as int) * (Q as int))
            by (nonlinear_arith)
            requires
                0 <= a <= Q,
                0 <= b <= Q,
        ;
    }
    let v = crate::num::div_floor((a as i128) * (b as i128), Q as i128);
    v as i64
}

} // verus!
