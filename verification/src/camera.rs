//! The camera and the path-tracing integrator.
//!
//! The camera's projection setup is a thin collaborator: its contract is
//! well-formedness of the rays it produces. The integrator carries the
//! radiance recursion in an accumulator pair, so its depth is bounded and
//! every colour it returns stays in range.

use crate::aabox::TRange;
use crate::bvh::{bvh_wf, spec_bvh_items, BoundedVolumeHierarchy};
use crate::colour::{
    colour_wf, spec_clamp_colour, spec_colour_add, spec_colour_mul, spec_colour_sum, Colour,
};
use crate::hittable_list::{list_wf, spec_linear_hit, HittableList};
use crate::material::{colour_wf_any, spec_emitted, DynMaterial, ScatterReflect};
use crate::pdf::{HittablePdf, MixturePdf};
use crate::vec3::{in_bounds, ray_wf, Point3, Ray, Vec3, Q, VEC_BOUND};
use vstd::prelude::*;

verus! {

/// Self-intersection guard: the query range starts a little above zero.
pub const T_EPS: i128 = 0x100000; // 2^-12 in T_SCALE units

/// The far horizon of every radiance query.
pub const T_FAR: i128 = 0x400000000000000; // 2^26 in T_SCALE units

/// Largest supported image side.
pub const MAX_DIM: u32 = 16384;

/// Builder defaults mirror a small square viewport with a half-right field
/// of view (a tangent of one).
#[derive(Debug, Clone, Copy)]
pub struct CameraBuilder {
    pub aspect_ratio: Option<i64>,
    pub image_width: Option<u32>,
    pub image_height: Option<u32>,
    pub samples_per_pixel: u16,
    pub max_depth: u32,
    pub background: Colour,
    pub vfov_tangent: i64,
    pub lookfrom: Point3,
    pub lookat: Point3,
    pub vup: Vec3,
    pub defocus_tangent: i64,
    pub focus_dist: i64,
}

/// Builder inputs the projection arithmetic can digest.
pub open spec fn builder_wf(b: CameraBuilder) -> bool {
    &&& match b.aspect_ratio {
        Some(a) => 1 <= a <= 1024 * Q,
        None => true,
    }
    &&& match b.image_width {
        Some(w) => 0 < w <= MAX_DIM,
        None => true,
    }
    &&& match b.image_height {
        Some(h) => 0 < h <= MAX_DIM,
        None => true,
    }
    &&& b.samples_per_pixel > 0
    &&& colour_wf(b.background)
    &&& 0 <= b.vfov_tangent <= 16 * Q
    &&& in_bounds(b.lookfrom, 0x200000)
    &&& in_bounds(b.lookat, 0x200000)
    &&& in_bounds(b.vup, 0x200000)
    &&& b.vup != (Vec3 { x: 0, y: 0, z: 0 })
    &&& 0 <= b.defocus_tangent <= Q
    &&& 1 <= b.focus_dist <= 0x200000
}

impl CameraBuilder {
    pub fn new() -> (r: CameraBuilder)
        ensures
            builder_wf(r),
            r.samples_per_pixel == 10,
            r.max_depth == 10,
    {
        CameraBuilder {
            aspect_ratio: None,
            image_width: None,
            image_height: None,
            samples_per_pixel: 10,
            max_depth: 10,
            background: Colour::black(),
            vfov_tangent: Q,
            lookfrom: Vec3 { x: 0, y: 0, z: 0 },
            lookat: Vec3 { x: 0, y: 0, z: -1024 },
            vup: Vec3 { x: 0, y: 1024, z: 0 },
            defocus_tangent: 0,
            focus_dist: 10240,
        }
    }

    pub fn with_aspect_ratio(self, aspect_ratio: i64) -> (r: CameraBuilder)
        ensures
            r == (CameraBuilder { aspect_ratio: Some(aspect_ratio), ..self }),
    {
        CameraBuilder { aspect_ratio: Some(aspect_ratio), ..self }
    }

    pub fn with_image_width(self, image_width: u32) -> (r: CameraBuilder)
        ensures
            r == (CameraBuilder { image_width: Some(image_width), ..self }),
    {
        CameraBuilder { image_width: Some(image_width), ..self }
    }

    pub fn with_image_height(self, image_height: u32) -> (r: CameraBuilder)
        ensures
            r == (CameraBuilder { image_height: Some(image_height), ..self }),
    {
        CameraBuilder { image_height: Some(image_height), ..self }
    }

    pub fn with_samples_per_pixel(self, samples_per_pixel: u16) -> (r: CameraBuilder)
        ensures
            r == (CameraBuilder { samples_per_pixel, ..self }),
    {
        CameraBuilder { samples_per_pixel, ..self }
    }

    pub fn with_max_depth(self, max_depth: u32) -> (r: CameraBuilder)
        ensures
            r == (CameraBuilder { max_depth, ..self }),
    {
        CameraBuilder { max_depth, ..self }
    }

    pub fn with_background(self, background: Colour) -> (r: CameraBuilder)
        ensures
            r == (CameraBuilder { background, ..self }),
    {
        CameraBuilder { background, ..self }
    }

    /// The field of view, given as the tangent of half the vertical angle.
    pub fn with_vfov_tangent(self, vfov_tangent: i64) -> (r: CameraBuilder)
        ensures
            r == (CameraBuilder { vfov_tangent, ..self }),
    {
        CameraBuilder { vfov_tangent, ..self }
    }

    pub fn with_lookfrom(self, lookfrom: Point3) -> (r: CameraBuilder)
        ensures
            r == (CameraBuilder { lookfrom, ..self }),
    {
        CameraBuilder { lookfrom, ..self }
    }

    pub fn with_lookat(self, lookat: Point3) -> (r: CameraBuilder)
        ensures
            r == (CameraBuilder { lookat, ..self }),
    {
        CameraBuilder { lookat, ..self }
    }

    pub fn with_vup(self, vup: Vec3) -> (r: CameraBuilder)
        ensures
            r == (CameraBuilder { vup, ..self }),
    {
        CameraBuilder { vup, ..self }
    }

    /// The defocus cone, given as the tangent of half its angle.
    pub fn with_defocus_tangent(self, defocus_tangent: i64) -> (r: CameraBuilder)
        ensures
            r == (CameraBuilder { defocus_tangent, ..self }),
    {
        CameraBuilder { defocus_tangent, ..self }
    }

    pub fn with_focus_dist(self, focus_dist: i64) -> (r: CameraBuilder)
        ensures
            r == (CameraBuilder { focus_dist, ..self }),
    {
        CameraBuilder { focus_dist, ..self }
    }

    /// Resolve the image size, orient the view frame, and lay out the
    /// viewport grid. Explicitly given dimensions are taken as they stand;
    /// a single given side makes a square; nothing given falls back to a
    /// hundred-pixel square; an aspect ratio derives the missing side.
    pub fn build(self) -> (c: Camera)
        requires
            builder_wf(self),
        ensures
            camera_wf(c),
            c.samples_per_pixel == self.samples_per_pixel,
            c.max_depth == self.max_depth,
            c.background == self.background,
            self.image_width is Some && self.image_height is Some ==> c.image_width
                == self.image_width.unwrap() && c.image_height == self.image_height.unwrap(),
            self.aspect_ratio is None && self.image_width is Some && self.image_height is None
                ==> c.image_width == self.image_width.unwrap() && c.image_height
                == self.image_width.unwrap(),
            self.aspect_ratio is None && self.image_width is None && self.image_height is Some
                ==> c.image_width == self.image_height.unwrap() && c.image_height
                == self.image_height.unwrap(),
            self.aspect_ratio is None && self.image_width is None && self.image_height is None
                ==> c.image_width == 100 && c.image_height == 100,
    {
        let (width, height): (u32, u32) = match (self.aspect_ratio, self.image_height, self.image_width) {
            (None, None, None) => (100, 100),
            (None, None, Some(w)) => (w, w),
            (None, Some(h), None) => (h, h),
            (Some(a), None, None) => {
                let h = div_round_dim(100 * (Q as i128), a as i128);
                (100, h)
            },
            (None, Some(h), Some(w)) => (w, h),
            (Some(a), None, Some(w)) => {
                proof {
                    assert(0 <= (w as int) * (Q as int) <= 0x10000000000000) by (nonlinear_arith)
                        requires
                            0 < w <= 16384,
                    ;
                }
                let h = div_round_dim((w as i128) * (Q as i128), a as i128);
                (w, h)
            },
            (Some(a), Some(h), None) => {
                proof {
                    assert(0 <= (h as int) * (a as int) <= 0x10000000000000) by (nonlinear_arith)
                        requires
                            0 < h <= 16384,
                            1 <= a <= 0x4000000,
                    ;
                }
                let w = div_round_dim((h as i128) * (a as i128), Q as i128);
                (w, h)
            },
            (Some(_), Some(h), Some(w)) => (w, h),
        };
        // Orient the frame; nudge a degenerate view direction sideways.
        let w_raw0 = self.lookfrom.sub(self.lookat);
        let c0 = self.vup.cross(w_raw0);
        let w_raw = if c0.x == 0 && c0.y == 0 && c0.z == 0 {
            Vec3 { x: w_raw0.x + 6554, y: w_raw0.y, z: w_raw0.z }
        } else {
            w_raw0
        };
        let w_unit = if w_raw.x == 0 && w_raw.y == 0 && w_raw.z == 0 {
            Vec3 { x: 0, y: 0, z: Q }
        } else {
            crate::onb::normalize_q(w_raw)
        };
        let cu = self.vup.cross(w_unit);
        proof {
            crate::vec3::lemma_cross_bound(self.vup, w_unit, 0x200000, Q as int);
        }
        let u_unit = if cu.x == 0 && cu.y == 0 && cu.z == 0 {
            Vec3 { x: Q, y: 0, z: 0 }
        } else {
            crate::onb::normalize_q(cu)
        };
        let v_unit = crate::onb::cross_q(w_unit, u_unit);
        // Viewport extents in units.
        proof {
            assert(0 <= 2 * (self.vfov_tangent as int) * (self.focus_dist as int)
                <= 0x100000000000) by (nonlinear_arith)
                requires
                    0 <= self.vfov_tangent <= 0x100000,
                    1 <= self.focus_dist <= 0x200000,
            ;
        }
        let vh = clamp_len(
            crate::num::div_floor(
                2 * (self.vfov_tangent as i128) * (self.focus_dist as i128),
                Q as i128,
            ),
        );
        let aspect: i128 = match self.aspect_ratio {
            Some(a) => a as i128,
            None => Q as i128,
        };
        proof {
            assert(0 <= (vh as int) * (aspect as int) <= 0x100000000000000) by (nonlinear_arith)
                requires
                    0 <= vh <= 0x8000000,
                    1 <= aspect <= 0x4000000,
            ;
        }
        let vw = clamp_len(crate::num::div_floor((vh as i128) * aspect, Q as i128));
        let viewport_u = scale_unit(u_unit, vw);
        let viewport_v = scale_unit(v_unit, vh);
        let pixel_delta_u = div_vec(viewport_u, width as i128);
        let pixel_delta_v = div_vec(viewport_v, height as i128);
        let focus_vec = scale_unit(w_unit, self.focus_dist);
        let half_u = div_vec(viewport_u, 2);
        let half_v = div_vec(viewport_v, 2);
        let corner = Vec3 {
            x: clamp_c((self.lookfrom.x as i128) - (focus_vec.x as i128) - (half_u.x as i128) - (
            half_v.x as i128)),
            y: clamp_c((self.lookfrom.y as i128) - (focus_vec.y as i128) - (half_u.y as i128) - (
            half_v.y as i128)),
            z: clamp_c((self.lookfrom.z as i128) - (focus_vec.z as i128) - (half_u.z as i128) - (
            half_v.z as i128)),
        };
        let half_du = div_vec(pixel_delta_u, 2);
        let half_dv = div_vec(pixel_delta_v, 2);
        let pixel00_loc = Vec3 {
            x: clamp_c((corner.x as i128) + (half_du.x as i128) + (half_dv.x as i128)),
            y: clamp_c((corner.y as i128) + (half_du.y as i128) + (half_dv.y as i128)),
            z: clamp_c((corner.z as i128) + (half_du.z as i128) + (half_dv.z as i128)),
        };
        proof {
            assert(0 <= (self.defocus_tangent as int) * (self.focus_dist as int)
                <= 0x100000000000) by (nonlinear_arith)
                requires
                    0 <= self.defocus_tangent <= 0x10000,
                    1 <= self.focus_dist <= 0x200000,
            ;
        }
        let defocus_radius = clamp_len(
            crate::num::div_floor(
                (self.defocus_tangent as i128) * (self.focus_dist as i128),
                Q as i128,
            ),
        );
        let defocus_disk_u = scale_unit(u_unit, defocus_radius);
        let defocus_disk_v = scale_unit(v_unit, defocus_radius);
        Camera {
            image_width: width,
            image_height: height,
            samples_per_pixel: self.samples_per_pixel,
            max_depth: self.max_depth,
            background: self.background,
            center: self.lookfrom,
            pixel00_loc,
            pixel_delta_u,
            pixel_delta_v,
            defocus_tangent: self.defocus_tangent,
            defocus_disk_u,
            defocus_disk_v,
        }
    }
}

/// Round `a / b` to the nearest whole image dimension, at least one, at most
/// the supported side.
fn div_round_dim(a: i128, b: i128) -> (r: u32)
    requires
        0 < b <= 0x100000000,
        0 <= a <= 0x10000000000000,
    ensures
        0 < r <= MAX_DIM,
{
    let q = crate::num::div_floor(a + b / 2, b);
    if q < 1 {
        1
    } else if q > MAX_DIM as i128 {
        MAX_DIM
    } else {
        q as u32
    }
}

/// Clamp a viewport length into the world bound.
fn clamp_len(v: i128) -> (r: i64)
    requires
        -0x100000000000000000000 <= v <= 0x100000000000000000000,
    ensures
        0 <= r <= VEC_BOUND,
{
    if v < 0 {
        0
    } else if v > VEC_BOUND as i128 {
        VEC_BOUND
    } else {
        v as i64
    }
}

/// Scale a unit-scale vector by a length in units, clamped to the world.
fn scale_unit(unit: Vec3, len: i64) -> (r: Vec3)
    requires
        in_bounds(unit, 1048576),
        0 <= len <= VEC_BOUND,
    ensures
        in_bounds(r, VEC_BOUND as int),
{
    proof {
        crate::vec3::lemma_prod_bound2(unit.x as int, len as int, 1048576, VEC_BOUND as int);
        crate::vec3::lemma_prod_bound2(unit.y as int, len as int, 1048576, VEC_BOUND as int);
        crate::vec3::lemma_prod_bound2(unit.z as int, len as int, 1048576, VEC_BOUND as int);
    }
    let x = crate::num::div_floor((unit.x as i128) * (len as i128), Q as i128);
    let y = crate::num::div_floor((unit.y as i128) * (len as i128), Q as i128);
    let z = crate::num::div_floor((unit.z as i128) * (len as i128), Q as i128);
    Vec3 {
        x: crate::entities::sphere::clamp_dir(x),
        y: crate::entities::sphere::clamp_dir(y),
        z: crate::entities::sphere::clamp_dir(z),
    }
}

/// Divide a vector by a positive count, componentwise.
fn div_vec(v: Vec3, n: i128) -> (r: Vec3)
    requires
        in_bounds(v, VEC_BOUND as int),
        0 < n <= 0x100000000,
    ensures
        in_bounds(r, VEC_BOUND as int),
{
    proof {
        crate::num::lemma_div_magnitude(v.x as int, n as int, VEC_BOUND as int);
        crate::num::lemma_div_magnitude(v.y as int, n as int, VEC_BOUND as int);
        crate::num::lemma_div_magnitude(v.z as int, n as int, VEC_BOUND as int);
    }
    let x = crate::num::div_floor(v.x as i128, n);
    let y = crate::num::div_floor(v.y as i128, n);
    let z = crate::num::div_floor(v.z as i128, n);
    Vec3 { x: x as i64, y: y as i64, z: z as i64 }
}

/// Clamp an accumulated coordinate into the world bound.
fn clamp_c(c: i128) -> (r: i64)
    requires
        -crate::num::DIV_BOUND <= c <= crate::num::DIV_BOUND,
    ensures
        -VEC_BOUND <= r <= VEC_BOUND,
{
    crate::entities::sphere::clamp_dir(c)
}

/// A camera ready to render: image geometry, sampling counts, and the
/// precomputed viewport frame.
#[derive(Debug, Clone, Copy)]
pub struct Camera {
    pub image_width: u32,
    pub image_height: u32,
    pub samples_per_pixel: u16,
    pub max_depth: u32,
    pub background: Colour,
    pub center: Point3,
    pub pixel00_loc: Point3,
    pub pixel_delta_u: Vec3,
    pub pixel_delta_v: Vec3,
    pub defocus_tangent: i64,
    pub defocus_disk_u: Vec3,
    pub defocus_disk_v: Vec3,
}

pub open spec fn camera_wf(c: Camera) -> bool {
    &&& 0 < c.image_width <= MAX_DIM
    &&& 0 < c.image_height <= MAX_DIM
    &&& c.samples_per_pixel > 0
    &&& colour_wf(c.background)
    &&& in_bounds(c.center, 0x200000)
    &&& in_bounds(c.pixel00_loc, VEC_BOUND as int)
    &&& in_bounds(c.pixel_delta_u, VEC_BOUND as int)
    &&& in_bounds(c.pixel_delta_v, VEC_BOUND as int)
    &&& in_bounds(c.defocus_disk_u, VEC_BOUND as int)
    &&& in_bounds(c.defocus_disk_v, VEC_BOUND as int)
}

impl Camera {
    /// A jittered primary ray through pixel `(i, j)`.
    pub fn get_ray(&self, i: u32, j: u32, rng: &mut rand::rngs::SmallRng) -> (r: Ray)
        requires
            camera_wf(*self),
            i < self.image_width,
            j < self.image_height,
        ensures
            ray_wf(r),
    {
        // Offsets jitter by half a pixel each way, in Q scale.
        let ox = crate::rng::random_q(rng) - Q / 2;
        let oy = crate::rng::random_q(rng) - Q / 2;
        let px = pixel_coord(self.pixel00_loc.x, self.pixel_delta_u.x, self.pixel_delta_v.x, i, j, ox, oy);
        let py = pixel_coord(self.pixel00_loc.y, self.pixel_delta_u.y, self.pixel_delta_v.y, i, j, ox, oy);
        let pz = pixel_coord(self.pixel00_loc.z, self.pixel_delta_u.z, self.pixel_delta_v.z, i, j, ox, oy);
        let origin = if self.defocus_tangent <= 0 {
            self.center
        } else {
            let d = crate::utils::UnitDisk.sample(rng);
            proof {
                crate::vec3::lemma_prod_bound2(self.defocus_disk_u.x as int, d.x as int, VEC_BOUND as int, Q as int);
                crate::vec3::lemma_prod_bound2(self.defocus_disk_u.y as int, d.x as int, VEC_BOUND as int, Q as int);
                crate::vec3::lemma_prod_bound2(self.defocus_disk_u.z as int, d.x as int, VEC_BOUND as int, Q as int);
                crate::vec3::lemma_prod_bound2(self.defocus_disk_v.x as int, d.z as int, VEC_BOUND as int, Q as int);
                crate::vec3::lemma_prod_bound2(self.defocus_disk_v.y as int, d.z as int, VEC_BOUND as int, Q as int);
                crate::vec3::lemma_prod_bound2(self.defocus_disk_v.z as int, d.z as int, VEC_BOUND as int, Q as int);
            }
            let ux = crate::num::div_floor((self.defocus_disk_u.x as i128) * (d.x as i128), Q as i128);
            let uy = crate::num::div_floor((self.defocus_disk_u.y as i128) * (d.x as i128), Q as i128);
            let uz = crate::num::div_floor((self.defocus_disk_u.z as i128) * (d.x as i128), Q as i128);
            let vx = crate::num::div_floor((self.defocus_disk_v.x as i128) * (d.z as i128), Q as i128);
            let vy = crate::num::div_floor((self.defocus_disk_v.y as i128) * (d.z as i128), Q as i128);
            let vz = crate::num::div_floor((self.defocus_disk_v.z as i128) * (d.z as i128), Q as i128);
            Vec3 {
                x: crate::entities::sphere::clamp_dir((self.center.x as i128) + ux + vx),
                y: crate::entities::sphere::clamp_dir((self.center.y as i128) + uy + vy),
                z: crate::entities::sphere::clamp_dir((self.center.z as i128) + uz + vz),
            }
        };
        let direction = Vec3 {
            x: crate::entities::sphere::clamp_dir((px as i128) - (origin.x as i128)),
            y: crate::entities::sphere::clamp_dir((py as i128) - (origin.y as i128)),
            z: crate::entities::sphere::clamp_dir((pz as i128) - (origin.z as i128)),
        };
        Ray::new(origin, direction)
    }

    /// The fixed-depth radiance estimate for one primary ray: a zero depth
    /// yields black, a miss yields the background, and a path that opens on
    /// an emitting or inert surface yields its clamped emission.
    pub fn ray_colour_call(
        &self,
        world: &BoundedVolumeHierarchy,
        lights: &HittableList,
        r: Ray,
        rng: &mut rand::rngs::SmallRng,
    ) -> (c: Colour)
        requires
            camera_wf(*self),
            bvh_wf(*world),
            list_wf(*lights),
            lights.len > 0,
            ray_wf(r),
        ensures
            colour_wf(c),
            self.max_depth == 0 ==> c == (Colour { r: 0, g: 0, b: 0 }),
            self.max_depth > 0 ==> match spec_linear_hit(
                spec_bvh_items(*world),
                r,
                spec_bounce_range(),
            ) {
                None => c == self.background,
                Some(rec) => (rec.mat is DiffuseLight || rec.mat is Invisible) ==> c
                    == spec_clamp_colour(spec_emitted(rec.mat)),
            },
    {
        let c = ray_colour_tail_call(
            world,
            lights,
            r,
            self.background,
            rng,
            Colour::white(),
            Colour::black(),
            self.max_depth,
        );
        proof {
            crate::colour::lemma_mul_white(self.background);
            crate::colour::lemma_add_black(self.background);
            if self.max_depth > 0 {
                match spec_linear_hit(spec_bvh_items(*world), r, spec_bounce_range()) {
                    None => {},
                    Some(rec) => {
                        if rec.mat is DiffuseLight || rec.mat is Invisible {
                            crate::colour::lemma_mul_white(spec_clamp_colour(spec_emitted(rec.mat)));
                            crate::colour::lemma_add_black(
                                spec_clamp_colour(spec_emitted(rec.mat)),
                            );
                        }
                    },
                }
            }
        }
        c
    }

    /// Render the whole image: rows of averaged pixel colours, top row
    /// first, seeded deterministically. A scene with no primitives renders
    /// every pixel to the accumulated and floor-averaged background.
    pub fn render(
        &self,
        world: &BoundedVolumeHierarchy,
        lights: &HittableList,
        seed: u64,
    ) -> (out: Vec<Vec<Colour>>)
        requires
            camera_wf(*self),
            bvh_wf(*world),
            list_wf(*lights),
            lights.len > 0,
        ensures
            out@.len() == self.image_height,
            forall|j: int|
                0 <= j < out@.len() ==> (#[trigger] out@[j])@.len() == self.image_width,
            forall|j: int, i: int|
                0 <= j < out@.len() && 0 <= i < out@[j]@.len() ==> colour_wf(
                    #[trigger] out@[j]@[i],
                ),
            self.max_depth > 0 && spec_bvh_items(*world).len() == 0 ==> forall|j: int, i: int|
                0 <= j < out@.len() && 0 <= i < out@[j]@.len() ==> #[trigger] out@[j]@[i]
                    == spec_background_pixel(self.background, self.samples_per_pixel as nat),
    {
        let mut rng = crate::rng::rng_from_seed(seed);
        let mut out: Vec<Vec<Colour>> = Vec::new();
        let mut j: u32 = 0;
        while j < self.image_height
            invariant
                camera_wf(*self),
                bvh_wf(*world),
                list_wf(*lights),
                lights.len > 0,
                0 <= j <= self.image_height,
                out@.len() == j,
                forall|jj: int|
                    0 <= jj < out@.len() ==> (#[trigger] out@[jj])@.len() == self.image_width,
                forall|jj: int, ii: int|
                    0 <= jj < out@.len() && 0 <= ii < out@[jj]@.len() ==> colour_wf(
                        #[trigger] out@[jj]@[ii],
                    ),
                self.max_depth > 0 && spec_bvh_items(*world).len() == 0 ==> forall|
                    jj: int,
                    ii: int,
                |
                    0 <= jj < out@.len() && 0 <= ii < out@[jj]@.len() ==> #[trigger] out@[jj]@[ii]
                        == spec_background_pixel(self.background, self.samples_per_pixel as nat),
            decreases self.image_height - j,
        {
            let mut row: Vec<Colour> = Vec::new();
            let mut i: u32 = 0;
            while i < self.image_width
                invariant
                    camera_wf(*self),
                    bvh_wf(*world),
                    list_wf(*lights),
                    lights.len > 0,
                    0 <= i <= self.image_width,
                    0 <= j < self.image_height,
                    row@.len() == i,
                    forall|ii: int| 0 <= ii < row@.len() ==> colour_wf(#[trigger] row@[ii]),
                    self.max_depth > 0 && spec_bvh_items(*world).len() == 0 ==> forall|ii: int|
                        0 <= ii < row@.len() ==> #[trigger] row@[ii] == spec_background_pixel(
                            self.background,
                            self.samples_per_pixel as nat,
                        ),
                decreases self.image_width - i,
            {
                let mut acc = Colour::black();
                let mut s: u16 = 0;
                while s < self.samples_per_pixel
                    invariant
                        camera_wf(*self),
                        bvh_wf(*world),
                        list_wf(*lights),
                        lights.len > 0,
                        0 <= i < self.image_width,
                        0 <= j < self.image_height,
                        s <= self.samples_per_pixel,
                        colour_wf(acc),
                        self.max_depth > 0 && spec_bvh_items(*world).len() == 0 ==> acc
                            == spec_colour_sum(self.background, s as nat),
                    decreases self.samples_per_pixel - s,
                {
                    let ray = self.get_ray(i, j, &mut rng);
                    let sample = self.ray_colour_call(world, lights, ray, &mut rng);
                    acc = acc.add(sample);
                    s = s + 1;
                }
                row.push(acc.div_count(self.samples_per_pixel as u32));
                i = i + 1;
            }
            out.push(row);
            j = j + 1;
        }
        out
    }
}

/// One coordinate of the jittered pixel sample.
fn pixel_coord(p0: i64, du: i64, dv: i64, i: u32, j: u32, ox: i64, oy: i64) -> (r: i64)
    requires
        -VEC_BOUND <= p0 <= VEC_BOUND,
        -VEC_BOUND <= du <= VEC_BOUND,
        -VEC_BOUND <= dv <= VEC_BOUND,
        i <= MAX_DIM,
        j <= MAX_DIM,
        -(Q as int) <= ox <= Q as int,
        -(Q as int) <= oy <= Q as int,
    ensures
        -VEC_BOUND <= r <= VEC_BOUND,
{
    proof {
        crate::vec3::lemma_prod_bound2(
            du as int,
            (i as int) * (Q as int) + ox,
            VEC_BOUND as int,
            0x100000000,
        );
        crate::vec3::lemma_prod_bound2(
            dv as int,
            (j as int) * (Q as int) + oy,
            VEC_BOUND as int,
            0x100000000,
        );
        assert(0 <= (i as int) * (Q as int) <= 0x40000000) by (nonlinear_arith)
            requires
                0 <= i <= 16384,
        ;
        assert(0 <= (j as int) * (Q as int) <= 0x40000000) by (nonlinear_arith)
            requires
                0 <= j <= 16384,
        ;
    }
    let iu = (i as i128) * (Q as i128) + (ox as i128);
    let jv = (j as i128) * (Q as i128) + (oy as i128);
    let su = crate::num::div_floor((du as i128) * iu, Q as i128);
    let sv = crate::num::div_floor((dv as i128) * jv, Q as i128);
    crate::entities::sphere::clamp_dir((p0 as i128) + su + sv)
}

/// The query range of every radiance bounce: from just above the surface
/// out to the horizon.
pub open spec fn spec_bounce_range() -> TRange {
    TRange { start: T_EPS, end: T_FAR }
}

/// The pixel an empty scene yields: the background summed over the
/// per-pixel samples with saturation, floor-averaged back down.
pub open spec fn spec_background_pixel(background: Colour, samples: nat) -> Colour {
    let s = spec_colour_sum(background, samples);
    Colour {
        r: (s.r as int / samples as int) as i64,
        g: (s.g as int / samples as int) as i64,
        b: (s.b as int / samples as int) as i64,
    }
}

/// The colour a path closes with at an absorbing or emitting surface: the
/// surface's clamped emission filtered by the carried multiplier, added to
/// the light already collected.
pub open spec fn spec_emission_close(mult: Colour, mat: DynMaterial, res: Colour) -> Colour {
    spec_colour_add(spec_colour_mul(mult, spec_clamp_colour(spec_emitted(mat))), res)
}

/// A hit record the scattering machinery can digest: a hit point inside the
/// world bound and a material whose colours are in range.
pub open spec fn spec_scatterable(rec: crate::hittable::HitRecord) -> bool {
    in_bounds(rec.p, VEC_BOUND as int) && colour_wf_any(rec.mat)
}

/// The tail-recursive radiance estimator: `mult` scales everything still to
/// come, `res` holds what is already collected. At depth zero the collected
/// light is final; a miss returns the scaled background; an absorbing or
/// emitting surface closes the path with its emission; a specular bounce
/// filters the multiplier; a diffuse bounce samples the even mixture of the
/// light-geometry density and the material's own density and weighs the
/// bounce by `scattering_pdf / mixture_pdf`, the unbiased-estimator ratio.
/// The contract pins every case the randomness does not reach: the cutoff,
/// the miss, the emission close, and the last bounce before the cutoff,
/// whose own recursion can collect nothing more.
pub fn ray_colour_tail_call(
    world: &BoundedVolumeHierarchy,
    lights: &HittableList,
    r: Ray,
    background: Colour,
    rng: &mut rand::rngs::SmallRng,
    mult: Colour,
    res: Colour,
    depth: u32,
) -> (c: Colour)
    requires
        bvh_wf(*world),
        list_wf(*lights),
        lights.len > 0,
        ray_wf(r),
        colour_wf(background),
        colour_wf(mult),
        colour_wf(res),
    ensures
        colour_wf(c),
        depth == 0 ==> c == res,
        depth > 0 ==> match spec_linear_hit(spec_bvh_items(*world), r, spec_bounce_range()) {
            None => c == spec_colour_add(spec_colour_mul(mult, background), res),
            Some(rec) => {
                &&& (rec.mat is DiffuseLight || rec.mat is Invisible || !spec_scatterable(rec))
                    ==> c == spec_emission_close(mult, rec.mat, res)
                &&& (depth == 1 && !(rec.mat is DiffuseLight)) ==> c == res
            },
        },
    decreases depth,
{
    if depth == 0 {
        return res;
    }
    let range = TRange { start: T_EPS, end: T_FAR };
    let hit = world.hit(&r, range);
    match hit {
        None => mult.mul(background).add(res),
        Some(rec) => {
            let emitted = rec.get_material().emitted(rec.get_u(), rec.get_v(), rec.get_p());
            let emitted_ok: Colour = clamp_colour(emitted);
            if !in_world_bounds(rec.get_p()) || !rec.get_material().colours_ok() {
                // A record the materials cannot digest closes the path with
                // its emission, like an absorber.
                proof {
                    if !(rec.mat is DiffuseLight) {
                        crate::colour::lemma_mul_black(mult);
                        crate::colour::lemma_add_black(res);
                    }
                }
                return mult.mul(emitted_ok).add(res);
            }
            let srec = rec.get_material().scatter(&r, &rec, rng);
            match srec {
                None => {
                    proof {
                        if !(rec.mat is DiffuseLight) {
                            crate::colour::lemma_mul_black(mult);
                            crate::colour::lemma_add_black(res);
                        }
                    }
                    mult.mul(emitted_ok).add(res)
                },
                Some(sr) => {
                    match sr.scatter_reflect {
                        ScatterReflect::Reflect(ray) => ray_colour_tail_call(
                            world,
                            lights,
                            ray,
                            background,
                            rng,
                            mult.mul(sr.attenuation),
                            res,
                            depth - 1,
                        ),
                        ScatterReflect::Scatter(pdf) => {
                            proof {
                                // A density-scattering material never emits,
                                // so the accumulator does not move here.
                                crate::colour::lemma_mul_black(mult);
                                crate::colour::lemma_add_black(res);
                            }
                            let light_pdf = HittablePdf::new(lights, rec.get_p());
                            let mix = MixturePdf::new(&light_pdf, &pdf);
                            let dir = mix.generate(rng);
                            let scattered = Ray::new(rec.get_p(), dir);
                            let pv = mix.value(&dir);
                            let spdf = rec.get_material().scattering_pdf(&r, &rec, &scattered);
                            let weight = bounce_weight(sr.attenuation, spdf, pv);
                            ray_colour_tail_call(
                                world,
                                lights,
                                scattered,
                                background,
                                rng,
                                mult.mul(weight),
                                res.add(mult.mul(emitted_ok)),
                                depth - 1,
                            )
                        },
                    }
                },
            }
        },
    }
}

/// The unbiased-estimator weight of one diffuse bounce: the attenuation,
/// scaled by the material's own density of the sampled direction, divided
/// by the capped mixture density that generated the sample. A vanishing
/// mixture density yields black, so a sample with no probability mass
/// contributes nothing.
fn bounce_weight(attenuation: Colour, spdf: i64, pv: i64) -> (w: Colour)
    requires
        colour_wf(attenuation),
        0 <= spdf <= 2 * Q,
        0 <= pv,
    ensures
        w == crate::colour::spec_colour_div(
            crate::colour::spec_colour_scale(attenuation, spdf as int),
            if pv > crate::colour::COLOUR_MAX {
                crate::colour::COLOUR_MAX as int
            } else {
                pv as int
            },
        ),
        colour_wf(w),
{
    attenuation.scale(spdf).div(
        if pv > crate::colour::COLOUR_MAX {
            crate::colour::COLOUR_MAX
        } else {
            pv
        },
    )
}

/// Clamp an untrusted colour into range.
fn clamp_colour(c: Colour) -> (r: Colour)
    ensures
        r == spec_clamp_colour(c),
        colour_wf(r),
{
    Colour {
        r: if c.r < 0 {
            0
        } else if c.r > 0x10000000000 {
            0x10000000000
        } else {
            c.r
        },
        g: if c.g < 0 {
            0
        } else if c.g > 0x10000000000 {
            0x10000000000
        } else {
            c.g
        },
        b: if c.b < 0 {
            0
        } else if c.b > 0x10000000000 {
            0x10000000000
        } else {
            c.b
        },
    }
}

/// Componentwise magnitude check against the world bound.
fn in_world_bounds(v: Vec3) -> (r: bool)
    ensures
        r == in_bounds(v, VEC_BOUND as int),
{
    -VEC_BOUND <= v.x && v.x <= VEC_BOUND && -VEC_BOUND <= v.y && v.y <= VEC_BOUND && -VEC_BOUND
        <= v.z && v.z <= VEC_BOUND
}

} // verus!
