use pathtracer::material::{Material, MaterialType};
use pathtracer::object::{MeshTriangle, Object};
use pathtracer::scene::Scene;
use pathtracer::triangle::Triangle;
use pathtracer::vec3::{Vec3, SCALE};

fn fx(v: f64) -> i64 {
    (v * SCALE as f64).round() as i64
}

fn vec(x: f64, y: f64, z: f64) -> Vec3 {
    Vec3::new(fx(x), fx(y), fx(z))
}

fn light_mat() -> Material {
    Material::new(MaterialType::Diffuse, vec(8.0, 8.0, 8.0), vec(0.65, 0.65, 0.65))
}

fn dark_mat() -> Material {
    Material::new(MaterialType::Diffuse, Vec3::new(0, 0, 0), vec(0.5, 0.5, 0.5))
}

/// Two emissive triangles in one mesh, with a 1 : 4 area split, far apart
/// along x so a sample's position tells which was drawn.
fn two_light_mesh() -> MeshTriangle {
    let faces = vec![
        // legs 1 x 1: doubled area 256 * 256
        (vec(0.0, 0.0, 0.0), vec(1.0, 0.0, 0.0), vec(0.0, 1.0, 0.0)),
        // legs 2 x 2 at x = 100: doubled area 4 * 256 * 256
        (vec(100.0, 0.0, 0.0), vec(102.0, 0.0, 0.0), vec(100.0, 2.0, 0.0)),
    ];
    MeshTriangle::new(&faces, light_mat())
}

#[test]
fn area_weighted_sampling_split() {
    let mesh = two_light_mesh();
    let a1 = 256i128 * 256;
    let a2 = 4 * 256i128 * 256;
    assert_eq!(mesh.area2, a1 + a2);
    let total = mesh.area2;
    let n = 1000i128;
    let mut first = 0u32;
    for s in 0..n {
        let p = total * s / n;
        let sample = mesh.bvh.sample(p, 128, 77);
        // each individual sample's density is exactly 1 / (A1 + A2)
        assert_eq!(sample.pdf.num, 131072);
        assert_eq!(sample.pdf.den, total);
        if sample.coords.x < fx(50.0) {
            first += 1;
        }
    }
    // evenly spread thresholds split exactly by area: 1/5 on the small one
    let expect = (n as i128 * a1 / total) as u32;
    assert!(first.abs_diff(expect) <= 1, "split {} vs {}", first, expect);
}

#[test]
fn sample_point_lies_on_triangle_plane() {
    let mesh = two_light_mesh();
    for z1 in [0i64, 50, 128, 200, 255] {
        for z2 in [0i64, 99, 255] {
            let s = mesh.bvh.sample(0, z1, z2);
            // both faces lie in the z = 0 plane
            assert_eq!(s.coords.z, 0);
            assert_eq!(s.normal, Vec3::new(0, 0, SCALE));
        }
    }
}

#[test]
fn scene_light_walk_picks_by_cumulative_area() {
    let mut scene = Scene::new(16, 16);
    // a dark triangle first: skipped by the light walk
    scene.add_object(Object::Tri(Triangle::new(
        vec(0.0, 0.0, 5.0),
        vec(1.0, 0.0, 5.0),
        vec(0.0, 1.0, 5.0),
        dark_mat(),
    )));
    let mesh = two_light_mesh();
    let mesh_area = mesh.area2;
    scene.add_object(Object::Mesh(mesh));
    // an emissive lone triangle after it, legs 1 x 1
    scene.add_object(Object::Tri(Triangle::new(
        vec(-50.0, 0.0, 0.0),
        vec(-49.0, 0.0, 0.0),
        vec(-50.0, 1.0, 0.0),
        light_mat(),
    )));
    let tri_area = 256i128 * 256;

    let total = mesh_area + tri_area;
    // every sample's density is over the union of emissive surfaces
    let s = scene.sample_light_with(0, 10, 10).expect("some light");
    assert_eq!(s.pdf.num, 131072);
    assert_eq!(s.pdf.den, total);
    // a threshold inside the mesh's interval selects the mesh
    assert!(s.coords.x >= 0);
    let s = scene.sample_light_with(mesh_area - 1, 10, 10).expect("some light");
    assert_eq!(s.pdf.den, total);
    // past the mesh's area, the walk reaches the lone triangle
    let s = scene.sample_light_with(mesh_area, 10, 10).expect("some light");
    assert_eq!(s.pdf.den, total);
    assert!(s.coords.x <= fx(-49.0), "threshold past the mesh lands on the lone triangle");
    // past all emissive area: nothing
    assert!(scene.sample_light_with(total, 10, 10).is_none());
}

#[test]
fn two_light_objects_share_one_density() {
    // two emissive triangle objects with areas 1 : 4 — every sample's
    // density is 1 / (A1 + A2), whichever was chosen
    let mut scene = Scene::new(16, 16);
    scene.add_object(Object::Tri(Triangle::new(
        vec(0.0, 0.0, 0.0),
        vec(1.0, 0.0, 0.0),
        vec(0.0, 1.0, 0.0),
        light_mat(),
    )));
    scene.add_object(Object::Tri(Triangle::new(
        vec(100.0, 0.0, 0.0),
        vec(102.0, 0.0, 0.0),
        vec(100.0, 2.0, 0.0),
        light_mat(),
    )));
    let a1 = 256i128 * 256;
    let a2 = 4 * 256i128 * 256;
    let total = a1 + a2;
    let mut first = 0u32;
    let n = 500i128;
    for s in 0..n {
        let p = total * s / n;
        let sample = scene.sample_light_with(p, 77, 200).expect("light present");
        assert_eq!(sample.pdf.num, 131072);
        assert_eq!(sample.pdf.den, total);
        if sample.coords.x < fx(50.0) {
            first += 1;
        }
    }
    // evenly spread thresholds split exactly by area
    let expect = (n * a1 / total) as u32;
    assert!(first.abs_diff(expect) <= 1, "split {} vs {}", first, expect);
}

#[test]
fn sample_light_succeeds_exactly_when_lights_exist() {
    let mut rng = pathtracer::rng::Rng::new(5);
    let mut dark = Scene::new(8, 8);
    dark.add_object(Object::Tri(Triangle::new(
        vec(0.0, 0.0, 0.0),
        vec(1.0, 0.0, 0.0),
        vec(0.0, 1.0, 0.0),
        dark_mat(),
    )));
    for _ in 0..20 {
        assert!(dark.sample_light(&mut rng).is_none());
    }
    let mut lit = dark;
    lit.add_object(Object::Tri(Triangle::new(
        vec(3.0, 0.0, 0.0),
        vec(4.0, 0.0, 0.0),
        vec(3.0, 1.0, 0.0),
        light_mat(),
    )));
    for _ in 0..20 {
        assert!(lit.sample_light(&mut rng).is_some());
    }
}

#[test]
fn scene_without_lights_samples_nothing() {
    let mut scene = Scene::new(16, 16);
    scene.add_object(Object::Tri(Triangle::new(
        vec(0.0, 0.0, 5.0),
        vec(1.0, 0.0, 5.0),
        vec(0.0, 1.0, 5.0),
        dark_mat(),
    )));
    assert!(scene.sample_light_with(0, 10, 10).is_none());
    let mut rng = pathtracer::rng::Rng::new(42);
    assert!(scene.sample_light(&mut rng).is_none());
}

#[test]
fn list_walk_and_bvh_sampling_agree() {
    // a scene holding one mesh: the list walk delegates to the mesh's
    // hierarchy, so both sampling routes give the same point and density
    let mut scene = Scene::new(16, 16);
    let mesh = two_light_mesh();
    let total = mesh.area2;
    let reference = MeshTriangle::new(
        &vec![
            (vec(0.0, 0.0, 0.0), vec(1.0, 0.0, 0.0), vec(0.0, 1.0, 0.0)),
            (vec(100.0, 0.0, 0.0), vec(102.0, 0.0, 0.0), vec(100.0, 2.0, 0.0)),
        ],
        light_mat(),
    );
    scene.add_object(Object::Mesh(mesh));
    for s in 0..50i128 {
        let p = total * s / 50;
        let a = scene.sample_light_with(p, 31, 173).expect("light present");
        let b = reference.bvh.sample(p, 31, 173);
        assert_eq!(a.coords, b.coords);
        assert_eq!(a.normal, b.normal);
        assert_eq!(a.pdf.num, b.pdf.num);
        assert_eq!(a.pdf.den, b.pdf.den);
    }
}
