use pathtracer::material::{fx_cos_turn, fx_sin_turn, Material, MaterialType};
use pathtracer::renderer::{get_buffer_index, BufRasterizer, Control, Rasterizable, XYBound};
use pathtracer::rgb::{rgb_vec_to_u8_slice, Rgb};
use pathtracer::rng::Rng;
use pathtracer::vec3::Vec3;

#[test]
fn rgb_accessors() {
    let c = Rgb::new(10, 20, 30);
    assert_eq!(c.r(), 10);
    assert_eq!(c.g(), 20);
    assert_eq!(c.b(), 30);
}

#[test]
fn rgb_buffer_flattens_in_order() {
    let buf = vec![Rgb::new(1, 2, 3), Rgb::new(4, 5, 6)];
    assert_eq!(rgb_vec_to_u8_slice(&buf), vec![1, 2, 3, 4, 5, 6]);
    assert_eq!(rgb_vec_to_u8_slice(&Vec::new()), Vec::<u8>::new());
}

#[test]
fn buffer_index_is_row_major_and_clamped() {
    assert_eq!(get_buffer_index(10, 20, 3, 2), 43);
    assert_eq!(get_buffer_index(10, 20, 25, 2), 60);
    assert_eq!(get_buffer_index(10, 20, 0, 15), 200);
}

#[test]
fn rasterizable_reads_back() {
    let r = BufRasterizer { width: 2, height: 1, data: vec![Rgb::new(9, 9, 9), Rgb::new(1, 1, 1)] };
    assert_eq!(r.size(), (2, 1));
    assert_eq!(r.data().len(), 2);
    assert_eq!(r.u8_data(), vec![9, 9, 9, 1, 1, 1]);
}

#[test]
fn xybound_and_control_carry_values() {
    let b = XYBound { min_x: 0usize, max_x: 7usize, min_y: 1usize, max_y: 5usize };
    assert_eq!(b.max_x - b.min_x, 7);
    assert_eq!(Control::Continue, Control::Continue);
    assert!(Control::Continue != Control::Stop);
}

#[test]
fn rng_is_deterministic_and_in_range() {
    let mut a = Rng::new(99);
    let mut b = Rng::new(99);
    for _ in 0..100 {
        let x = a.next_unit();
        assert_eq!(x, b.next_unit());
        assert!((0..256).contains(&x));
    }
    let mut c = Rng::new(100);
    let va: Vec<i64> = (0..8).map(|_| a.next_unit()).collect();
    let vc: Vec<i64> = (0..8).map(|_| c.next_unit()).collect();
    assert_ne!(va, vc);
}

#[test]
fn trig_quarters() {
    // sin: 0 at 0 and half turn, +-1 at the quarter turns
    assert_eq!(fx_sin_turn(0), 0);
    assert_eq!(fx_sin_turn(64), 256);
    assert_eq!(fx_sin_turn(128), 0);
    assert_eq!(fx_sin_turn(192), -256);
    // cos: 1 at 0, 0 at the quarter, -1 at the half
    assert_eq!(fx_cos_turn(0), 256);
    assert_eq!(fx_cos_turn(64), 0);
    assert_eq!(fx_cos_turn(128), -256);
    assert_eq!(fx_cos_turn(192), 0);
}

#[test]
fn material_emission_query() {
    let dark = Material::new(MaterialType::Diffuse, Vec3::new(0, 0, 0), Vec3::new(100, 100, 100));
    assert!(!dark.has_emission());
    let lit = Material::new(MaterialType::Diffuse, Vec3::new(0, 1, 0), Vec3::new(100, 100, 100));
    assert!(lit.has_emission());
    assert_eq!(lit.get_emission(), Vec3::new(0, 1, 0));
    assert!(matches!(lit.get_type(), MaterialType::Diffuse));
}

#[test]
fn material_eval_and_pdf_sides() {
    let m = Material::new(MaterialType::Diffuse, Vec3::new(0, 0, 0), Vec3::new(256, 256, 256));
    let n = Vec3::new(0, 0, 256);
    let up = Vec3::new(0, 0, 256);
    let down = Vec3::new(0, 0, -256);
    // kd = 1.0: eval above the surface is kd / pi = 81/256 in fixed point
    assert_eq!(m.eval(up, up, n), Vec3::new(81, 81, 81));
    assert_eq!(m.eval(up, down, n), Vec3::new(0, 0, 0));
    // pdf: 1/(2 pi) above, zero below
    assert_eq!(m.pdf(up, up, n), 40);
    assert_eq!(m.pdf(down, up, n), 0);
}

#[test]
fn sampled_direction_stays_above_surface() {
    let m = Material::new(MaterialType::Diffuse, Vec3::new(0, 0, 0), Vec3::new(128, 128, 128));
    let n = Vec3::new(0, 0, 256);
    let wo = Vec3::new(0, 0, 256);
    for z1 in [0i64, 33, 128, 200, 255] {
        for z2 in [0i64, 64, 129, 255] {
            let wi = m.sameple(wo, n, z1, z2);
            // the hemisphere sampler never goes below the surface
            assert!(wi.z >= 0, "wi {:?}", wi);
        }
    }
}
