//! Sampling checks: the orthonormal frame, the mixture density, and the
//! samplers behind them.

use tracer::colour::Colour;
use tracer::entities::quadrilateral::Quad;
use tracer::entities::Primitive;
use tracer::hittable_list::HittableList;
use tracer::material::{DiffuseLight, DynMaterial};
use tracer::onb::Onb;
use tracer::pdf::{HittablePdf, MaterialPdf, MixturePdf, SpherePdf};
use tracer::rng::rng_from_seed;
use tracer::utils::{CosineWeightedHemisphere, UnitDisk, UnitSphere};
use tracer::vec3::{Vec3, Q};

#[test]
fn positive_x_normal() {
    let uvw = Onb::new(Vec3 { x: Q, y: 0, z: 0 });
    for v in [uvw.get_u(), uvw.get_v(), uvw.get_w()] {
        assert!(v.x.abs() <= 1048576, "u = {:?}", v);
        assert!(v.y.abs() <= 1048576, "v = {:?}", v);
        assert!(v.z.abs() <= 1048576, "w = {:?}", v);
    }
    // The frame is non-degenerate: w follows the normal.
    assert!(uvw.get_w().x > 0);
}

#[test]
fn geometry_positive_x_normal() {
    let uvw = Onb::new(Vec3 { x: 3 * Q, y: 0, z: 0 });
    assert!(uvw.get_u().x.abs() <= 1048576, "u = {:?}", uvw.get_u());
    assert!(uvw.get_v().x.abs() <= 1048576, "v = {:?}", uvw.get_v());
    assert!(uvw.get_w().x.abs() <= 1048576, "w = {:?}", uvw.get_w());
    // Normalization brings the long normal back to unit scale.
    assert!((uvw.get_w().x - Q).abs() <= 2);
}

#[test]
fn unit_samplers_stay_in_their_supports() {
    let mut rng = rng_from_seed(7);
    for _ in 0..200 {
        let s = UnitSphere.sample(&mut rng);
        assert!(s.x * s.x + s.y * s.y + s.z * s.z <= (Q as i64) * (Q as i64));
        let d = UnitDisk.sample(&mut rng);
        assert_eq!(d.y, 0);
        assert!(d.x * d.x + d.z * d.z <= (Q as i64) * (Q as i64));
        let c = CosineWeightedHemisphere.sample(&mut rng);
        assert!(c.z >= 0);
    }
}

fn light_list() -> HittableList {
    let mut lights = HittableList::new();
    let light = DynMaterial::DiffuseLight(DiffuseLight::new_with_colour(Colour::new(
        15 * Q,
        15 * Q,
        15 * Q,
    )));
    lights.add(Primitive::Quad(Quad::new(
        Vec3 { x: -2000, y: 8000, z: -2000 },
        Vec3 { x: 4000, y: 0, z: 0 },
        Vec3 { x: 0, y: 0, z: 4000 },
        light,
    )));
    lights
}

#[test]
fn mixture_value_is_the_exact_average() {
    let lights = light_list();
    let origin = Vec3 { x: 0, y: 0, z: 0 };
    let hp = HittablePdf::new(&lights, origin);
    let mp = MaterialPdf::Sphere(SpherePdf);
    let mix = MixturePdf::new(&hp, &mp);
    let dir = Vec3 { x: 100, y: 1024, z: -50 };
    let v1 = hp.value(&dir);
    let v2 = mp.value(&dir);
    assert_eq!(mix.value(&dir) as i128, ((v1 as i128) + (v2 as i128)) / 2);
}

#[test]
fn mixture_density_integrates_to_about_one() {
    // Monte Carlo over uniform directions: the integral of the mixture
    // density over the sphere of directions should come out near one.
    let lights = light_list();
    let origin = Vec3 { x: 0, y: 0, z: 0 };
    let hp = HittablePdf::new(&lights, origin);
    let mp = MaterialPdf::Sphere(SpherePdf);
    let mix = MixturePdf::new(&hp, &mp);
    let mut rng = rng_from_seed(11);
    let n = 20000;
    let mut sum = 0.0f64;
    let mut used = 0u32;
    for _ in 0..n {
        let d = UnitSphere.sample(&mut rng);
        if d.x == 0 && d.y == 0 && d.z == 0 {
            continue;
        }
        let v = mix.value(&d) as f64 / (Q as f64);
        sum += v;
        used += 1;
    }
    let mean = sum / (used as f64);
    let integral = mean * 4.0 * std::f64::consts::PI;
    assert!(
        integral > 0.4 && integral < 2.0,
        "mixture integral {} out of tolerance",
        integral
    );
}

#[test]
fn fuzzless_metal_reflects_exactly_about_the_normal() {
    let albedo = Colour::new(50000, 40000, 30000);
    let mat = DynMaterial::Metal(tracer::material::Metal::new(albedo, 0));
    let s = tracer::entities::sphere::Sphere::new(Vec3 { x: 0, y: 0, z: -4000 }, 1000, mat);
    // A slanted incoming ray that still strikes the sphere.
    let ray = tracer::vec3::Ray::new(
        Vec3 { x: -200, y: 100, z: 0 },
        Vec3 { x: 60, y: -30, z: -1024 },
    );
    let rec = s.hit(&ray, tracer::aabox::TRange::new(1, 1 << 58)).unwrap();
    let mut rng = rng_from_seed(3);
    let sr = rec.get_material().scatter(&ray, &rec, &mut rng).unwrap();
    assert_eq!(sr.attenuation, albedo);
    let expected = tracer::material::reflect(tracer::onb::normalize_q(ray.get_direction()), rec.get_normal());
    match sr.scatter_reflect {
        tracer::material::ScatterReflect::Reflect(out) => {
            assert_eq!(out.get_origin(), rec.get_p());
            assert_eq!(out.get_direction(), expected);
        }
        tracer::material::ScatterReflect::Scatter(_) => panic!("a metal surface must reflect"),
    }
}

#[test]
fn sphere_sample_stays_within_the_jittered_center_offset() {
    let s = tracer::entities::sphere::Sphere::new(
        Vec3 { x: 2000, y: -1000, z: -9000 },
        500,
        DynMaterial::DiffuseLight(DiffuseLight::new_with_colour(Colour::new(Q, Q, Q))),
    );
    let origin = Vec3 { x: 0, y: 0, z: 0 };
    let mut rng = rng_from_seed(9);
    for _ in 0..200 {
        let d = s.random(origin, &mut rng);
        assert!((d.x - 2000).abs() <= 500);
        assert!((d.y + 1000).abs() <= 500);
        assert!((d.z + 9000).abs() <= 500);
    }
}
