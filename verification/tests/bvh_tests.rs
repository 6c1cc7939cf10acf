use pathtracer::bvh::{intersect_brute, BVHAccel};
use pathtracer::material::{Material, MaterialType};
use pathtracer::ray::Ray;
use pathtracer::triangle::Triangle;
use pathtracer::vec3::{Vec3, SCALE};

fn fx(v: f64) -> i64 {
    (v * SCALE as f64).round() as i64
}

fn vec(x: f64, y: f64, z: f64) -> Vec3 {
    Vec3::new(fx(x), fx(y), fx(z))
}

fn mat() -> Material {
    Material::new(MaterialType::Diffuse, Vec3::new(0, 0, 0), vec(0.5, 0.5, 0.5))
}

/// A field of non-overlapping triangles, all facing +z, at varying depths.
fn triangle_field() -> Vec<Triangle> {
    let mut tris = Vec::new();
    for i in 0..5 {
        for j in 0..5 {
            let x = i as f64 * 3.0 - 7.0;
            let y = j as f64 * 3.0 - 7.0;
            let z = ((i * 7 + j * 3) % 11) as f64 - 5.0;
            tris.push(Triangle::new(
                vec(x, y, z),
                vec(x + 2.0, y, z),
                vec(x, y + 2.0, z),
                mat(),
            ));
        }
    }
    tris
}

fn ray_grid() -> Vec<Ray> {
    let mut rays = Vec::new();
    for i in 0..25 {
        for j in 0..25 {
            let x = i as f64 * 0.65 - 8.0;
            let y = j as f64 * 0.65 - 8.0;
            rays.push(Ray::new(vec(x, y, 20.0), vec(0.0, 0.0, -1.0)));
            rays.push(Ray::new(
                vec(x, y, 30.0),
                vec(0.05 * (i as f64 - 12.0), 0.05 * (j as f64 - 12.0), -1.0),
            ));
            rays.push(Ray::new(vec(x, y, -20.0), vec(0.0, 0.0, 1.0)));
        }
    }
    rays
}

#[test]
fn bvh_matches_brute_force() {
    let tris = triangle_field();
    let accel = BVHAccel::new(tris.clone());
    let mut hits = 0usize;
    for ray in ray_grid() {
        let a = accel.intersect(&ray);
        let b = intersect_brute(&tris, &ray);
        assert_eq!(a.is_some(), b.is_some());
        if let (Some(ha), Some(hb)) = (a, b) {
            // the same closest hit, by exact rational distance
            assert!(ha.distance.eq_val(hb.distance));
            hits += 1;
        }
    }
    assert!(hits > 40, "the ray grid should find plenty of hits, found {}", hits);
}

#[test]
fn bvh_single_triangle() {
    let tris = vec![Triangle::new(
        vec(0.0, 0.0, 0.0),
        vec(1.0, 0.0, 0.0),
        vec(0.0, 1.0, 0.0),
        mat(),
    )];
    let accel = BVHAccel::new(tris);
    let hit = accel
        .intersect(&Ray::new(vec(0.25, 0.25, 1.0), vec(0.0, 0.0, -1.0)))
        .expect("must hit");
    assert_eq!(hit.distance.num, hit.distance.den);
    assert!(accel
        .intersect(&Ray::new(vec(5.0, 5.0, 1.0), vec(0.0, 0.0, -1.0)))
        .is_none());
}

#[test]
fn bvh_nearest_of_stacked() {
    // two parallel triangles: the nearer one must win
    let near = Triangle::new(vec(0.0, 0.0, 2.0), vec(2.0, 0.0, 2.0), vec(0.0, 2.0, 2.0), mat());
    let far = Triangle::new(vec(0.0, 0.0, 0.0), vec(2.0, 0.0, 0.0), vec(0.0, 2.0, 0.0), mat());
    let accel = BVHAccel::new(vec![far, near]);
    let hit = accel
        .intersect(&Ray::new(vec(0.5, 0.5, 10.0), vec(0.0, 0.0, -1.0)))
        .expect("must hit");
    // hit point on the nearer plane z = 2
    assert_eq!(hit.coords.z, fx(2.0));
}

#[test]
fn bvh_empty_is_no_hit() {
    let accel = BVHAccel::new(Vec::new());
    assert!(accel
        .intersect(&Ray::new(vec(0.0, 0.0, 0.0), vec(1.0, 0.0, 0.0)))
        .is_none());
}
