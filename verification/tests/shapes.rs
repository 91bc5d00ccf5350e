//! Per-shape intersection checks and colour arithmetic.

use tracer::aabox::TRange;
use tracer::colour::Colour;
use tracer::entities::cuboid::Cuboid;
use tracer::entities::transformations::{Matrix3, Transformation, TransformedPrim};
use tracer::entities::triangles::Triangle;
use tracer::entities::Primitive;
use tracer::material::{DynMaterial, Lambertian};
use tracer::utils::Slice;
use tracer::vec3::{Ray, Vec3, Q, T_SCALE};

fn gray() -> DynMaterial {
    DynMaterial::Lambertian(Lambertian::new_with_colour(Colour::new(32768, 32768, 32768)))
}

fn far_range() -> TRange {
    TRange::new(1, 1 << 58)
}

#[test]
fn triangle_hit_respects_its_edges() {
    let t = Triangle::new(
        Vec3 { x: -1000, y: 0, z: -3000 },
        Vec3 { x: 2000, y: 0, z: 0 },
        Vec3 { x: 0, y: 2000, z: 0 },
        gray(),
    );
    // Straight at the corner region: hit.
    let hit = t.hit(
        &Ray::new(Vec3 { x: -500, y: 300, z: 0 }, Vec3 { x: 0, y: 0, z: -1024 }),
        far_range(),
    );
    assert!(hit.is_some());
    assert_eq!(hit.unwrap().get_t(), 3000 * T_SCALE / 1024);
    // Outside the hypotenuse: miss.
    let miss = t.hit(
        &Ray::new(Vec3 { x: 900, y: 1900, z: 0 }, Vec3 { x: 0, y: 0, z: -1024 }),
        far_range(),
    );
    assert!(miss.is_none());
}

#[test]
fn cuboid_hits_its_near_face() {
    let c = Cuboid::new(
        Vec3 { x: -1000, y: -1000, z: -5000 },
        Vec3 { x: 1000, y: 1000, z: -3000 },
        gray(),
    );
    let hit = c.hit(
        &Ray::new(Vec3 { x: 0, y: 0, z: 0 }, Vec3 { x: 0, y: 0, z: -1024 }),
        far_range(),
    );
    let rec = hit.expect("ray into the box must hit");
    // The near face sits at z = -3000 (give or take the box padding).
    let t_units = rec.get_t() * 1024 / T_SCALE;
    assert!((2990..=3010).contains(&t_units), "t_units = {}", t_units);
    // A ray aimed sideways misses.
    let miss = c.hit(
        &Ray::new(Vec3 { x: 0, y: 0, z: 0 }, Vec3 { x: 0, y: 1024, z: 0 }),
        far_range(),
    );
    assert!(miss.is_none());
}

#[test]
fn translated_sphere_moves_with_its_transform() {
    let inner = Primitive::Sphere(tracer::entities::sphere::Sphere::new(
        Vec3 { x: 0, y: 0, z: 0 },
        1000,
        gray(),
    ));
    let shift = Transformation::new(Matrix3::identity(), Vec3 { x: 0, y: 0, z: -6000 });
    let moved = TransformedPrim::new(inner, shift);
    let hit = moved.hit(
        &Ray::new(Vec3 { x: 0, y: 0, z: 0 }, Vec3 { x: 0, y: 0, z: -1024 }),
        far_range(),
    );
    let rec = hit.expect("the translated sphere sits straight ahead");
    // Entry at z = -5000: t of 5000/1024 units of direction length.
    assert_eq!(rec.get_t(), 5000 * T_SCALE / 1024);
    // Untranslated, the same ray would start inside; aimed away it misses.
    let miss = moved.hit(
        &Ray::new(Vec3 { x: 0, y: 0, z: 0 }, Vec3 { x: 0, y: 0, z: 1024 }),
        far_range(),
    );
    assert!(miss.is_none());
}

#[test]
fn slice_scans_like_a_list() {
    let values = vec![
        Primitive::Sphere(tracer::entities::sphere::Sphere::new(
            Vec3 { x: 0, y: 0, z: -4000 },
            500,
            gray(),
        )),
        Primitive::Sphere(tracer::entities::sphere::Sphere::new(
            Vec3 { x: 0, y: 0, z: -8000 },
            500,
            gray(),
        )),
    ];
    let s = Slice::new(values);
    let hit = s.hit(
        &Ray::new(Vec3 { x: 0, y: 0, z: 0 }, Vec3 { x: 0, y: 0, z: -1024 }),
        far_range(),
    );
    let rec = hit.expect("both spheres are dead ahead");
    // The nearer sphere wins: entry at z = -3500.
    assert_eq!(rec.get_t(), 3500 * T_SCALE / 1024);
}

#[test]
fn colour_arithmetic_saturates_and_gamma_quantizes() {
    let a = Colour::new(Q, Q / 2, 0);
    let b = Colour::new(Q, Q, Q);
    // Multiplying by white keeps the colour.
    assert_eq!(a.mul(b), a);
    // Unit brightness maps to full white output.
    assert_eq!(Colour::channel_byte(Q), 255);
    assert_eq!(Colour::channel_byte(0), 0);
    // A quarter brightness gamma-corrects to about half scale.
    let half = Colour::channel_byte(Q / 4);
    assert!((126..=130).contains(&half), "half = {}", half);
    // Sums cap at the representable maximum instead of wrapping.
    let big = Colour::new(0x10000000000, 0x10000000000, 0x10000000000);
    assert_eq!(big.add(big), big);
}

#[test]
fn division_by_no_density_gives_black() {
    let c = Colour::new(Q, Q, Q);
    assert_eq!(c.div(0), Colour::new(0, 0, 0));
    assert_eq!(c.div(-5), Colour::new(0, 0, 0));
    assert_eq!(c.div(Q), c);
}
