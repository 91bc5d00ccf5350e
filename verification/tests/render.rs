//! End-to-end renders: small images, deterministic seeds.

use tracer::bvh::BoundedVolumeHierarchy;
use tracer::camera::CameraBuilder;
use tracer::colour::Colour;
use tracer::entities::plane::Plane;
use tracer::entities::quadrilateral::Quad;
use tracer::entities::sphere::Sphere;
use tracer::entities::Primitive;
use tracer::hittable_list::HittableList;
use tracer::material::{DiffuseLight, DynMaterial, Lambertian, Metal};
use tracer::vec3::{Vec3, Q};

fn lambertian(r: i64, g: i64, b: i64) -> DynMaterial {
    DynMaterial::Lambertian(Lambertian::new_with_colour(Colour::new(r, g, b)))
}

fn light(strength: i64) -> DynMaterial {
    DynMaterial::DiffuseLight(DiffuseLight::new_with_colour(Colour::new(
        strength, strength, strength,
    )))
}

fn light_quad() -> Primitive {
    Primitive::Quad(Quad::new(
        Vec3 { x: -2000, y: 6000, z: -6000 },
        Vec3 { x: 4000, y: 0, z: 0 },
        Vec3 { x: 0, y: 0, z: 4000 },
        light(15 * Q),
    ))
}

/// One diffuse sphere and one emitting quad: renders identically under the
/// same seed, and visibly differently once the light goes away.
#[test]
fn single_sphere_render_is_deterministic_and_lit() {
    let mut world = HittableList::new();
    world.add(Primitive::Sphere(Sphere::new(
        Vec3 { x: 0, y: 0, z: -4000 },
        1500,
        lambertian(40000, 40000, 40000),
    )));
    world.add(light_quad());
    let mut lights = HittableList::new();
    lights.add(light_quad());

    let mut dark_world = HittableList::new();
    dark_world.add(Primitive::Sphere(Sphere::new(
        Vec3 { x: 0, y: 0, z: -4000 },
        1500,
        lambertian(40000, 40000, 40000),
    )));

    let cam = CameraBuilder::new()
        .with_image_width(3)
        .with_image_height(2)
        .with_samples_per_pixel(10)
        .with_max_depth(3)
        .with_vfov_tangent(tracer::vec3::Q / 4)
        .with_lookfrom(Vec3 { x: 0, y: 0, z: 0 })
        .with_lookat(Vec3 { x: 0, y: 0, z: -4000 })
        .with_vup(Vec3 { x: 0, y: 1024, z: 0 })
        .with_focus_dist(4000)
        .build();

    let bvh = BoundedVolumeHierarchy::from(world);
    let first = cam.render(&bvh, &lights, 42);
    let second = cam.render(&bvh, &lights, 42);
    assert_eq!(first.len(), 2);
    for row in first.iter() {
        assert_eq!(row.len(), 3);
    }
    assert_eq!(first, second, "same seed must reproduce the same image");

    let dark_bvh = BoundedVolumeHierarchy::from(dark_world);
    let dark = cam.render(&dark_bvh, &lights, 42);
    assert_ne!(first, dark, "removing the light must change the image");
    // Without any emitter (and a black background), nothing shines.
    let total: i64 = dark
        .iter()
        .flat_map(|row| row.iter())
        .map(|c| c.r + c.g + c.b)
        .sum();
    assert_eq!(total, 0);
}

/// A floor plane under two spheres, seen from afar.
#[test]
fn plane_test() {
    let mut world = HittableList::new();
    world.add(Primitive::Plane(Plane::new(
        Vec3 { x: 0, y: -1024, z: 0 },
        Vec3 { x: 0, y: -1024, z: 0 },
        lambertian(30000, 45000, 30000),
    )));
    world.add(Primitive::Sphere(Sphere::new(
        Vec3 { x: 0, y: 0, z: 0 },
        1024,
        lambertian(45000, 20000, 20000),
    )));
    world.add(light_quad());
    let mut lights = HittableList::new();
    lights.add(light_quad());
    let cam = CameraBuilder::new()
        .with_image_width(3)
        .with_image_height(2)
        .with_samples_per_pixel(10)
        .with_max_depth(3)
        .with_lookfrom(Vec3 { x: -13312, y: 2048, z: 3072 })
        .with_lookat(Vec3 { x: 0, y: 0, z: 0 })
        .with_vup(Vec3 { x: 0, y: 1024, z: 0 })
        .with_focus_dist(10240)
        .build();
    let bvh = BoundedVolumeHierarchy::from(world);
    let out = cam.render(&bvh, &lights, 7);
    assert_eq!(out.len(), 2);
    assert_eq!(out[0].len(), 3);
}

/// A small mixed scene: several diffuse spheres, one metal one, a light.
#[test]
fn small_test() {
    let mut world = HittableList::new();
    for k in 0..6i64 {
        world.add(Primitive::Sphere(Sphere::new(
            Vec3 { x: k * 2500 - 6000, y: 0, z: -5000 - k * 300 },
            1024,
            lambertian(20000 + 5000 * k, 45000 - 5000 * k, 30000),
        )));
    }
    world.add(Primitive::Sphere(Sphere::new(
        Vec3 { x: 0, y: 3000, z: -6000 },
        1500,
        DynMaterial::Metal(Metal::new(Colour::new(50000, 50000, 50000), 3000)),
    )));
    world.add(light_quad());
    let mut lights = HittableList::new();
    lights.add(light_quad());
    let cam = CameraBuilder::new()
        .with_image_width(3)
        .with_image_height(2)
        .with_samples_per_pixel(10)
        .with_max_depth(3)
        .with_lookfrom(Vec3 { x: -13312, y: 2048, z: 3072 })
        .with_lookat(Vec3 { x: 0, y: 0, z: 0 })
        .with_vup(Vec3 { x: 0, y: 1024, z: 0 })
        .with_focus_dist(10240)
        .build();
    let bvh = BoundedVolumeHierarchy::from(world);
    let out = cam.render(&bvh, &lights, 3);
    assert_eq!(out.len(), 2);
    assert_eq!(out[0].len(), 3);
}

#[test]
fn given_dimensions_are_kept_and_an_empty_scene_shows_the_background() {
    let background = Colour::new(3000, 2000, 1000);
    let cam = CameraBuilder::new()
        .with_image_width(3)
        .with_image_height(2)
        .with_samples_per_pixel(10)
        .with_max_depth(3)
        .with_background(background)
        .build();
    assert_eq!(cam.image_width, 3);
    assert_eq!(cam.image_height, 2);
    let world = HittableList::new();
    let mut lights = HittableList::new();
    lights.add(light_quad());
    let bvh = BoundedVolumeHierarchy::from(world);
    let out = cam.render(&bvh, &lights, 7);
    assert_eq!(out.len(), 2);
    for row in out.iter() {
        assert_eq!(row.len(), 3);
        for c in row.iter() {
            // Ten background samples averaged back down land exactly on
            // the background, well below saturation.
            assert_eq!(*c, background);
        }
    }
}
