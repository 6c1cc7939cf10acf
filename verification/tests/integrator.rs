use pathtracer::material::{reflect, Material, MaterialType};
use pathtracer::object::{MeshTriangle, Object};
use pathtracer::ray::Ray;
use pathtracer::rng::Rng;
use pathtracer::scene::Scene;
use pathtracer::triangle::Triangle;
use pathtracer::vec3::{Vec3, SCALE};

fn fx(v: f64) -> i64 {
    (v * SCALE as f64).round() as i64
}

fn vec(x: f64, y: f64, z: f64) -> Vec3 {
    Vec3::new(fx(x), fx(y), fx(z))
}

fn light_mat() -> Material {
    Material::new(MaterialType::Diffuse, vec(8.0, 8.0, 8.0), vec(0.65, 0.65, 0.65))
}

fn white_mat() -> Material {
    Material::new(MaterialType::Diffuse, Vec3::new(0, 0, 0), vec(0.725, 0.71, 0.68))
}

#[test]
fn material_test_reflect() {
    let i = vec(1.0, 1.0, -1.0);
    let n = vec(0.0, 0.0, 1.0);
    let r = reflect(i, n);
    assert_eq!(r, vec(1.0, 1.0, 1.0));
}

#[test]
fn scene_test_reflect() {
    let i = vec(1.0, 1.0, -1.0);
    let n = vec(0.0, 0.0, 1.0);
    let r = reflect(i, n);
    assert_eq!(r, vec(1.0, 1.0, 1.0));
}

fn one_light_scene() -> Scene {
    let mut scene = Scene::new(8, 8);
    scene.add_object(Object::Tri(Triangle::new(
        vec(-2.0, -2.0, 0.0),
        vec(2.0, -2.0, 0.0),
        vec(-2.0, 2.0, 0.0),
        light_mat(),
    )));
    scene.build_bvh();
    scene
}

#[test]
fn no_double_counting_primary_hit() {
    // a primary ray that hits the light head-on returns emission * (wo . n)
    let scene = one_light_scene();
    let ray = Ray::new(vec(-1.0, -1.0, 3.0), vec(0.0, 0.0, -1.0));
    let mut rng = Rng::new(7);
    let c = scene.cast_ray(&ray, true, &mut rng);
    // wo . n is exactly 1.0, so the radiance is the emission itself
    assert_eq!(c, vec(8.0, 8.0, 8.0));
}

#[test]
fn no_double_counting_indirect_hit() {
    // the same hit reached by an indirect ray contributes nothing: the
    // previous vertex's direct-light sample already counted it
    let scene = one_light_scene();
    let ray = Ray::new(vec(-1.0, -1.0, 3.0), vec(0.0, 0.0, -1.0));
    let mut rng = Rng::new(7);
    let c = scene.cast_ray(&ray, false, &mut rng);
    assert_eq!(c, Vec3::new(0, 0, 0));
}

#[test]
fn miss_returns_black() {
    let scene = one_light_scene();
    let ray = Ray::new(vec(0.0, 0.0, 3.0), vec(0.0, 0.0, 1.0));
    let mut rng = Rng::new(7);
    let c = scene.cast_ray(&ray, true, &mut rng);
    assert_eq!(c, Vec3::new(0, 0, 0));
}

#[test]
fn oblique_emissive_hit_scales_by_cosine() {
    let scene = one_light_scene();
    // a 45-degree approach in the x/z plane: wo . n = sqrt(2)/2
    let dir = vec(1.0, 0.0, -1.0).normalized();
    let ray = Ray::new(vec(-3.0, -1.0, 2.0), dir);
    let mut rng = Rng::new(7);
    let c = scene.cast_ray(&ray, true, &mut rng);
    // cos in fixed point: dot(-dir, n) = 181 * 256 / 256 = 181
    // emission 8.0 * (181/256) == 2048 * 181 / 256 = 1448
    assert_eq!(c, Vec3::new(1448, 1448, 1448));
}

/// A closed diffuse box with a small ceiling light: radiance at a fixed
/// probe stays finite and nonnegative across roulette settings.
fn closed_box(rr: i64) -> Scene {
    let mut scene = Scene::new(8, 8);
    scene.russian_roulette = rr;
    let w = white_mat();
    let quad = |a: Vec3, b: Vec3, c: Vec3, d: Vec3, m: Material| {
        MeshTriangle::new(&vec![(a, b, c), (a, c, d)], m)
    };
    // floor (normal up), ceiling (normal down), back wall (normal +z)
    scene.add_object(Object::Mesh(quad(
        vec(-4.0, -4.0, -4.0),
        vec(-4.0, -4.0, 4.0),
        vec(4.0, -4.0, 4.0),
        vec(4.0, -4.0, -4.0),
        w,
    )));
    scene.add_object(Object::Mesh(quad(
        vec(-4.0, 4.0, -4.0),
        vec(4.0, 4.0, -4.0),
        vec(4.0, 4.0, 4.0),
        vec(-4.0, 4.0, 4.0),
        w,
    )));
    scene.add_object(Object::Mesh(quad(
        vec(-4.0, -4.0, -4.0),
        vec(4.0, -4.0, -4.0),
        vec(4.0, 4.0, -4.0),
        vec(-4.0, 4.0, -4.0),
        w,
    )));
    // small emissive patch just under the ceiling, facing down
    scene.add_object(Object::Mesh(quad(
        vec(-1.0, 3.9, -1.0),
        vec(1.0, 3.9, -1.0),
        vec(1.0, 3.9, 1.0),
        vec(-1.0, 3.9, 1.0),
        light_mat(),
    )));
    scene.build_bvh();
    scene
}

#[test]
fn energy_stays_bounded_across_roulette_settings() {
    // the mean over many paths stays finite, never negative, does not blow
    // up as the roulette continuation probability varies, and the means
    // agree across the settings within Monte Carlo noise
    let probe = Ray::new(vec(0.0, 0.0, 3.9), vec(0.0, 0.0, -1.0).normalized());
    let mut means: Vec<i128> = Vec::new();
    for rr in [128i64, 205, 243] {
        let scene = closed_box(rr);
        let mut rng = Rng::new(12345);
        let mut sum = [0i128; 3];
        let n = 400;
        for _ in 0..n {
            let c = scene.cast_ray(&probe, true, &mut rng);
            assert!(c.x >= 0 && c.y >= 0 && c.z >= 0);
            sum[0] += c.x as i128;
            sum[1] += c.y as i128;
            sum[2] += c.z as i128;
        }
        for s in sum {
            let mean = s / n;
            // mean radiance stays within a loose physical range
            // (emission is 8.0 = 2048 fixed)
            assert!(mean >= 0 && mean < 4096, "mean {} out of range", mean);
            means.push(mean);
        }
    }
    let lo = *means.iter().min().unwrap();
    let hi = *means.iter().max().unwrap();
    assert!(lo > 0, "the lit box cannot be pitch black at the probe");
    assert!(hi <= 2 * lo + 8, "means diverge across settings: {:?}", means);
}

#[test]
fn unbuilt_scene_reports_no_hit() {
    let mut scene = Scene::new(8, 8);
    scene.add_object(Object::Tri(Triangle::new(
        vec(0.0, 0.0, 0.0),
        vec(1.0, 0.0, 0.0),
        vec(0.0, 1.0, 0.0),
        white_mat(),
    )));
    let ray = Ray::new(vec(0.25, 0.25, 1.0), vec(0.0, 0.0, -1.0));
    assert!(scene.intersect(&ray).is_none());
    scene.build_bvh();
    assert!(scene.intersect(&ray).is_some());
}

