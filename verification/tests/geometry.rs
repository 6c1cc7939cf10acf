use pathtracer::bounds3::{Bounds3, Dimension};
use pathtracer::rat::Rat;
use pathtracer::material::{Material, MaterialType};
use pathtracer::num::isqrt;
use pathtracer::ray::Ray;
use pathtracer::triangle::Triangle;
use pathtracer::vec3::{Vec3, SCALE};

fn fx(v: f64) -> i64 {
    (v * SCALE as f64).round() as i64
}

fn vec(x: f64, y: f64, z: f64) -> Vec3 {
    Vec3::new(fx(x), fx(y), fx(z))
}

fn unit_box() -> Bounds3 {
    Bounds3::from_min_max(vec(0.0, 0.0, 0.0), vec(1.0, 1.0, 1.0))
}

#[test]
fn test_intersect_p() {
    let bound = unit_box();
    let cases = [
        (Ray::new(vec(0.0, 0.0, 0.0), vec(1.0, 1.0, 1.0)), true),
        (Ray::new(vec(-1.0, -1.0, -1.0), vec(-1.0, -1.0, -1.0)), false),
        (Ray::new(vec(-2.0, 0.0, 0.0), vec(1.0, 1.0, 1.0)), false),
    ];
    for (ray, should_intersect) in cases {
        assert_eq!(bound.intersect_p(&ray), should_intersect);
    }
}

#[test]
fn slab_test_towards_box() {
    // from outside, straight at the box
    let bound = unit_box();
    let ray = Ray::new(vec(-2.0, 0.5, 0.5), vec(1.0, 0.0, 0.0));
    assert!(bound.intersect_p(&ray));
}

#[test]
fn slab_test_parallel_axis() {
    let bound = unit_box();
    // parallel to the x axis, inside the y/z slabs: hit
    let inside = Ray::new(vec(-2.0, 0.5, 0.5), vec(1.0, 0.0, 0.0));
    assert!(bound.intersect_p(&inside));
    // parallel to the x axis, outside the y slab: miss, no matter how far
    let outside = Ray::new(vec(-2.0, 2.0, 0.5), vec(1.0, 0.0, 0.0));
    assert!(!bound.intersect_p(&outside));
}

#[test]
fn slab_test_behind_origin() {
    let bound = unit_box();
    let ray = Ray::new(vec(2.0, 0.5, 0.5), vec(1.0, 0.0, 0.0));
    assert!(!bound.intersect_p(&ray));
}

#[test]
fn bounds_union_and_extent() {
    let a = Bounds3::from_min_max(vec(0.0, 0.0, 0.0), vec(1.0, 2.0, 3.0));
    let b = Bounds3::from_min_max(vec(-1.0, 1.0, 1.0), vec(0.5, 1.5, 8.0));
    let u = a.union(&b);
    assert_eq!(u.min, vec(-1.0, 0.0, 0.0));
    assert_eq!(u.max, vec(1.0, 2.0, 8.0));
    // z extent dominates strictly, but X wins only when strictly greatest
    assert_eq!(u.max_extent(), Dimension::Z);
    let c = Bounds3::from_min_max(vec(0.0, 0.0, 0.0), vec(5.0, 1.0, 1.0));
    assert_eq!(c.max_extent(), Dimension::X);
    // tie between y and z goes to Y
    let d = Bounds3::from_min_max(vec(0.0, 0.0, 0.0), vec(1.0, 2.0, 2.0));
    assert_eq!(d.max_extent(), Dimension::Y);
}

#[test]
fn bounds_union_point() {
    let a = Bounds3::from_point(vec(1.0, 1.0, 1.0));
    let b = a.union_point(vec(-1.0, 3.0, 0.0));
    assert_eq!(b.min, vec(-1.0, 1.0, 0.0));
    assert_eq!(b.max, vec(1.0, 3.0, 1.0));
}

fn white() -> Material {
    Material::new(
        MaterialType::Diffuse,
        Vec3::new(0, 0, 0),
        vec(0.725, 0.71, 0.68),
    )
}

#[test]
fn triangle_round_trip() {
    // triangle (0,0,0),(1,0,0),(0,1,0), ray from (0.25,0.25,1) straight down
    let t = Triangle::new(vec(0.0, 0.0, 0.0), vec(1.0, 0.0, 0.0), vec(0.0, 1.0, 0.0), white());
    let ray = Ray::new(vec(0.25, 0.25, 1.0), vec(0.0, 0.0, -1.0));
    let hit = t.get_intersection(&ray).expect("must hit");
    // the exact rational parameter equals 1
    assert_eq!(hit.distance.num, hit.distance.den);
    assert!(hit.distance.den > 0);
    assert_eq!(hit.coords, vec(0.25, 0.25, 0.0));
    // counter-clockwise winding gives the +z unit normal
    assert_eq!(hit.normal, Vec3::new(0, 0, SCALE));
}

#[test]
fn triangle_miss_outside() {
    let t = Triangle::new(vec(0.0, 0.0, 0.0), vec(1.0, 0.0, 0.0), vec(0.0, 1.0, 0.0), white());
    // beyond the hypotenuse: u + v > 1
    let ray = Ray::new(vec(0.75, 0.75, 1.0), vec(0.0, 0.0, -1.0));
    assert!(t.get_intersection(&ray).is_none());
    // behind the origin
    let ray2 = Ray::new(vec(0.25, 0.25, -1.0), vec(0.0, 0.0, -1.0));
    assert!(t.get_intersection(&ray2).is_none());
}

#[test]
fn triangle_backface_is_miss() {
    let t = Triangle::new(vec(0.0, 0.0, 0.0), vec(1.0, 0.0, 0.0), vec(0.0, 1.0, 0.0), white());
    // approaching from below hits the back face: a miss for a single-sided
    // surface
    let ray = Ray::new(vec(0.25, 0.25, -1.0), vec(0.0, 0.0, 1.0));
    assert!(t.get_intersection(&ray).is_none());
}

#[test]
fn triangle_area_and_degenerate() {
    let t = Triangle::new(vec(0.0, 0.0, 0.0), vec(1.0, 0.0, 0.0), vec(0.0, 1.0, 0.0), white());
    // twice the area of a unit right triangle is 1.0 in world units:
    // 256 * 256 grid steps
    assert_eq!(t.area2, 256 * 256);
    let d = Triangle::new(vec(0.0, 0.0, 0.0), vec(1.0, 0.0, 0.0), vec(2.0, 0.0, 0.0), white());
    assert_eq!(d.area2, 0);
    assert_eq!(d.normal, Vec3::new(0, 0, 0));
    // a degenerate triangle is never hit
    let ray = Ray::new(vec(0.5, 0.0, 1.0), vec(0.0, 0.0, -1.0));
    assert!(d.get_intersection(&ray).is_none());
}

#[test]
fn isqrt_values() {
    assert_eq!(isqrt(0), 0);
    assert_eq!(isqrt(1), 1);
    assert_eq!(isqrt(15), 3);
    assert_eq!(isqrt(16), 4);
    assert_eq!(isqrt(65535), 255);
    assert_eq!(isqrt(65536), 256);
    assert_eq!(isqrt(u64::MAX as u128), (1u128 << 32) - 1);
}

#[test]
fn ray_on_evaluates_rounded_point() {
    let ray = Ray::new(vec(0.0, 0.0, 0.0), vec(1.0, 2.0, 0.0));
    // t = 1/2 lands at (0.5, 1.0, 0.0)
    let p = ray.on(Rat::new(1, 2));
    assert_eq!(p, vec(0.5, 1.0, 0.0));
}
