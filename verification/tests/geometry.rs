//! Geometry-level checks: boxes, splits, and the hierarchy against a linear
//! scan.

use tracer::aabox::{AABBox, TRange};
use tracer::aaplane::{get_axis, AAPlane, Axis};
use tracer::bvh::BoundedVolumeHierarchy;
use tracer::colour::Colour;
use tracer::entities::sphere::Sphere;
use tracer::entities::Primitive;
use tracer::hittable_list::HittableList;
use tracer::material::{DynMaterial, Invisible, Lambertian};
use tracer::vec3::{Ray, Vec3, T_SCALE};

fn gray() -> DynMaterial {
    DynMaterial::Lambertian(Lambertian::new_with_colour(Colour::new(32768, 32768, 32768)))
}

fn sphere_at(x: i64, y: i64, z: i64, r: i64) -> Primitive {
    Primitive::Sphere(Sphere::new(Vec3 { x, y, z }, r, gray()))
}

#[test]
fn axes_enumerate_in_order() {
    let axes = get_axis();
    assert!(matches!(axes[0], Axis::X));
    assert!(matches!(axes[1], Axis::Y));
    assert!(matches!(axes[2], Axis::Z));
}

#[test]
fn enclose_is_commutative_and_monotonic() {
    let a = AABBox::new(-5, 10, 0, 4, -7, -2);
    let b = AABBox::new(3, 20, -9, 1, -3, 8);
    let ab = a.enclose(&b);
    let ba = b.enclose(&a);
    assert_eq!(ab, ba);
    for axis in get_axis() {
        let (lo, hi) = ab.axis(axis);
        let (alo, ahi) = a.axis(axis);
        let (blo, bhi) = b.axis(axis);
        assert!(hi - lo >= ahi - alo);
        assert!(hi - lo >= bhi - blo);
    }
}

#[test]
fn degenerate_box_is_padded() {
    // A zero-thickness input grows to positive extent on the thin axis.
    let flat = AABBox::new(0, 0, -4, 4, -4, 4);
    let grown = flat.enclose(&flat);
    let (lo, hi) = grown.axis(Axis::X);
    assert!(hi - lo >= 1);
    // And stays put on the healthy axes.
    let (ylo, yhi) = grown.axis(Axis::Y);
    assert_eq!((ylo, yhi), (-4, 4));
}

#[test]
fn slab_boundary_points_outward_misses() {
    // Origin exactly on the high x face, direction outward: no hit for any
    // range that starts after zero.
    let b = AABBox::new(0, 10240, 0, 10240, 0, 10240);
    let ray = Ray::new(Vec3 { x: 10240, y: 5120, z: 5120 }, Vec3 { x: 1024, y: 0, z: 0 });
    let range = TRange::new(1, 1 << 58);
    assert!(b.hit(&ray, range).is_none());
    // Pointing back inward, the same origin does hit.
    let inward = Ray::new(Vec3 { x: 10240, y: 5120, z: 5120 }, Vec3 { x: -1024, y: 0, z: 0 });
    assert!(b.hit(&inward, range).is_some());
}

#[test]
fn split_conserves_primitives() {
    let mut list = HittableList::new();
    for k in 0..8 {
        list.add(sphere_at(k * 3000, 0, 0, 1000));
    }
    let total = list.len();
    let plane = AAPlane { coord: 10500, axis: Axis::X };
    let (left, right) = list.split_by(plane);
    assert_eq!(left.len() + right.len(), total);
    assert!(left.len() > 0 && right.len() > 0);
}

#[test]
fn best_split_conserves_primitives() {
    let mut list = HittableList::new();
    for k in 0..10 {
        list.add(sphere_at(k * 4000, k * 100, -k * 200, 900));
    }
    let total = list.len();
    let (left, right, _plane) = list.best_split();
    assert_eq!(left.len() + right.len(), total);
}

#[test]
fn bvh_hit_matches_linear_scan() {
    let mut for_tree = HittableList::new();
    let mut for_scan = HittableList::new();
    let coords: [(i64, i64, i64); 9] = [
        (0, 0, -8000),
        (2500, 100, -9000),
        (-2600, -300, -7000),
        (5200, 900, -12000),
        (-5300, 1200, -11000),
        (7900, -700, -15000),
        (-8100, -1500, -14000),
        (10400, 2000, -18000),
        (-10700, 2400, -17500),
    ];
    for &(x, y, z) in coords.iter() {
        for_tree.add(sphere_at(x, y, z, 1000));
        for_scan.add(sphere_at(x, y, z, 1000));
    }
    let bvh = BoundedVolumeHierarchy::from(for_tree);
    let range = TRange::new(1, 1 << 58);
    let dirs: [(i64, i64, i64); 7] = [
        (0, 0, -1024),
        (100, 10, -1000),
        (-120, -40, -980),
        (300, 80, -900),
        (-350, 120, -1100),
        (1024, 0, 0),
        (0, 1024, -30),
    ];
    for &(dx, dy, dz) in dirs.iter() {
        let ray = Ray::new(Vec3 { x: 0, y: 0, z: 0 }, Vec3 { x: dx, y: dy, z: dz });
        let from_tree = bvh.hit(&ray, range);
        let from_scan = for_scan.hit(&ray, range);
        assert_eq!(from_tree, from_scan);
    }
}

#[test]
fn sphere_head_on_hit_is_exact() {
    // From distance 500 at a sphere of radius 100: the hit parameter is
    // exactly (500 - 100) in whole units of the fixed-point scale, because
    // the direction has unit length in units.
    let s = Sphere::new(Vec3 { x: 0, y: 0, z: 0 }, 100, gray());
    let ray = Ray::new(Vec3 { x: 500, y: 0, z: 0 }, Vec3 { x: -1, y: 0, z: 0 });
    let range = TRange::new(1, 1 << 58);
    let rec = s.hit(&ray, range).expect("head-on ray must hit");
    assert_eq!(rec.get_t(), 400 * T_SCALE);
    assert!(rec.is_front_face());
}

#[test]
fn sphere_miss_reports_none() {
    let s = Sphere::new(Vec3 { x: 0, y: 0, z: 0 }, 100, gray());
    let ray = Ray::new(Vec3 { x: 500, y: 0, z: 0 }, Vec3 { x: 0, y: 1, z: 0 });
    let range = TRange::new(1, 1 << 58);
    assert!(s.hit(&ray, range).is_none());
}

#[test]
fn empty_scene_never_hits() {
    let list = HittableList::new();
    let bvh = BoundedVolumeHierarchy::from(list);
    let ray = Ray::new(Vec3 { x: 0, y: 0, z: 0 }, Vec3 { x: 0, y: 0, z: -1024 });
    assert!(bvh.hit(&ray, TRange::new(1, 1 << 58)).is_none());
    assert_eq!(bvh.len(), 0);
}

#[test]
fn coincident_primitives_fall_back_to_a_leaf() {
    // Many primitives sharing one box start defeat the median split; the
    // builder must settle for a leaf instead of recursing forever, and the
    // traversal must still agree with the linear scan.
    let mut for_tree = HittableList::new();
    let mut for_scan = HittableList::new();
    for _ in 0..9 {
        for_tree.add(sphere_at(0, 0, -6000, 1000));
        for_scan.add(sphere_at(0, 0, -6000, 1000));
    }
    let bvh = BoundedVolumeHierarchy::from(for_tree);
    assert_eq!(bvh.len(), 9);
    let ray = Ray::new(Vec3 { x: 0, y: 0, z: 0 }, Vec3 { x: 0, y: 0, z: -1024 });
    let range = TRange::new(1, 1 << 58);
    assert_eq!(bvh.hit(&ray, range), for_scan.hit(&ray, range));
    assert!(bvh.hit(&ray, range).is_some());
}

#[test]
fn invisible_material_neither_emits_nor_scatters() {
    let mat = DynMaterial::Invisible(Invisible);
    let emitted = mat.emitted(0, 0, Vec3 { x: 0, y: 0, z: 0 });
    assert_eq!(emitted, Colour::new(0, 0, 0));
    let s = Sphere::new(Vec3 { x: 0, y: 0, z: -4000 }, 1000, mat);
    let ray = Ray::new(Vec3 { x: 0, y: 0, z: 0 }, Vec3 { x: 0, y: 0, z: -1024 });
    let rec = s.hit(&ray, TRange::new(1, 1 << 58)).unwrap();
    let mut rng = tracer::rng::rng_from_seed(5);
    assert!(rec.get_material().scatter(&ray, &rec, &mut rng).is_none());
}

#[test]
fn best_split_of_the_empty_collection_is_the_zero_x_plane() {
    let list = HittableList::new();
    let (left, right, plane) = list.best_split();
    assert_eq!(left.len(), 0);
    assert_eq!(right.len(), 0);
    assert_eq!(plane.coord, 0);
    assert!(matches!(plane.axis, Axis::X));
    assert!(left.aabbox.is_none());
    assert!(right.aabbox.is_none());
}

#[test]
fn split_with_everything_on_one_side_leaves_the_other_without_a_box() {
    let mut list = HittableList::new();
    for k in 0..4 {
        list.add(sphere_at(k * 3000, 0, 0, 1000));
    }
    // Every box lies below this plane, so the right side stays empty.
    let plane = AAPlane { coord: 100000, axis: Axis::X };
    let (left, right) = list.split_by(plane);
    assert_eq!(left.len(), 4);
    assert_eq!(right.len(), 0);
    assert!(right.aabbox.is_none());
    assert!(left.aabbox.is_some());
}
