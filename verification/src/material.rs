//! Surface materials: a discriminated set of reflectance models storing a
//! diffuse albedo and an emitted radiance, both as fixed-point colors.

use vstd::prelude::*;

use crate::num::{
    div_trunc, isqrt, lemma_div_trunc_bounds, lemma_isqrt_is_sisqrt, lemma_mul_abs_bound,
    lemma_mul_le_mono, sdiv_trunc, sisqrt,
};
use crate::vec3::{bounded, sdot, Vec3, SCALE};

verus! {

/// `1 / pi` in fixed point: `floor(SCALE / pi)`.
pub const INV_PI_FX: i64 = 81;

/// `1 / (2 pi)` in fixed point: `floor(SCALE / (2 pi))`.
pub const INV_2PI_FX: i64 = 40;

#[derive(Clone, Copy, PartialEq, Eq, Structural, Debug)]
pub enum MaterialType {
    Diffuse,
}

#[derive(Clone, Copy, PartialEq, Eq, Structural, Debug)]
pub struct Material {
    pub m_type: MaterialType,
    pub m_emission: Vec3,
    pub kd: Vec3,
}

impl Material {
    pub fn new(t: MaterialType, emission: Vec3, kd: Vec3) -> (r: Material)
        ensures
            r.m_type == t,
            r.m_emission == emission,
            r.kd == kd,
    {
        Material { m_type: t, m_emission: emission, kd }
    }

    pub fn get_type(&self) -> (r: MaterialType)
        ensures
            r == self.m_type,
    {
        self.m_type
    }

    pub fn get_emission(&self) -> (r: Vec3)
        ensures
            r == self.m_emission,
    {
        self.m_emission
    }

    /// On the exact grid a material emits iff its emission is nonzero.
    pub fn has_emission(&self) -> (r: bool)
        ensures
            r == spec_has_emission(*self),
    {
        self.m_emission.x != 0 || self.m_emission.y != 0 || self.m_emission.z != 0
    }
}

pub open spec fn spec_has_emission(m: Material) -> bool {
    m.m_emission != (Vec3 { x: 0, y: 0, z: 0 })
}

/// The parabolic quarter-wave approximation of `sin(2 pi z / SCALE)`,
/// scaled to `SCALE`: `4 u (SCALE - u) / SCALE` on the first half wave,
/// negated on the second.
pub open spec fn spec_sin_turn(z: int) -> int {
    let u = 2 * z;
    if u < 256 {
        sdiv_trunc(4 * u * (256 - u), 256)
    } else {
        -sdiv_trunc(4 * (u - 256) * (256 - (u - 256)), 256)
    }
}

/// The matching cosine: the sine a quarter turn ahead.
pub open spec fn spec_cos_turn(z: int) -> int {
    if z >= 192 {
        spec_sin_turn(z - 192)
    } else {
        spec_sin_turn(z + 64)
    }
}

/// Fixed-point sine of the fraction `z / SCALE` of a full turn.
pub fn fx_sin_turn(z: i64) -> (r: i64)
    requires
        0 <= z < SCALE,
    ensures
        r == spec_sin_turn(z as int),
        -(SCALE as int) <= r <= SCALE as int,
{
    let u = 2 * z;
    if u < 256 {
        proof {
            lemma_mul_abs_bound(4 * (u as int), (256 - u) as int, 1024, 256);
            lemma_sin_parabola_bounds(u as int);
        }
        let p: i128 = 4 * (u as i128) * ((256 - u) as i128);
        div_trunc(p, 256) as i64
    } else {
        let v = u - 256;
        proof {
            lemma_mul_abs_bound(4 * (v as int), (256 - v) as int, 1024, 256);
            lemma_sin_parabola_bounds(v as int);
        }
        let p: i128 = 4 * (v as i128) * ((256 - v) as i128);
        -(div_trunc(p, 256) as i64)
    }
}

/// The half-wave parabola stays within `[0, SCALE]`.
proof fn lemma_sin_parabola_bounds(u: int)
    requires
        0 <= u < 256,
    ensures
        0 <= 4 * u * (256 - u) <= 65536,
        0 <= sdiv_trunc(4 * u * (256 - u), 256) <= 256,
{
    assert(0 <= 4 * u * (256 - u) <= 65536) by (nonlinear_arith)
        requires
            0 <= u < 256,
    ;
    lemma_div_trunc_bounds(4 * u * (256 - u), 256, 0, 256);
}

/// Fixed-point cosine of the fraction `z / SCALE` of a full turn.
pub fn fx_cos_turn(z: i64) -> (r: i64)
    requires
        0 <= z < SCALE,
    ensures
        r == spec_cos_turn(z as int),
        -(SCALE as int) <= r <= SCALE as int,
{
    if z >= 192 {
        fx_sin_turn(z - 192)
    } else {
        fx_sin_turn(z + 64)
    }
}

/// One component of a vector rescaled to unit fixed-point length:
/// `c * SCALE / len` truncated; zero for a zero length.
pub open spec fn spec_unit_axis(c: int, len: int) -> int {
    if len == 0 {
        0
    } else {
        sdiv_trunc(c * 256, len)
    }
}

/// The tangent-frame basis vector `c` built from the normal: the branch
/// avoids degeneracy near a coordinate axis, as spec'd by the component
/// formulas below.
pub open spec fn spec_basis(n: Vec3) -> Vec3 {
    if sabs64(n.x as int) > sabs64(n.y as int) {
        let len = sisqrt(n.x * n.x + n.z * n.z);
        Vec3 {
            x: spec_unit_axis(n.z as int, len) as i64,
            y: 0,
            z: spec_unit_axis(-(n.x as int), len) as i64,
        }
    } else {
        let len = sisqrt(n.y * n.y + n.z * n.z);
        Vec3 {
            x: 0,
            y: spec_unit_axis(n.z as int, len) as i64,
            z: spec_unit_axis(-(n.y as int), len) as i64,
        }
    }
}

pub open spec fn sabs64(v: int) -> int {
    if v >= 0 {
        v
    } else {
        -v
    }
}

/// Build the tangent basis vector for a unit fixed-point normal.
fn basis_of(n: Vec3) -> (r: Vec3)
    requires
        bounded(n, SCALE as int),
    ensures
        r == spec_basis(n),
        bounded(r, SCALE as int),
    {
    let nx_abs = if n.x >= 0 {
        n.x
    } else {
        -n.x
    };
    let ny_abs = if n.y >= 0 {
        n.y
    } else {
        -n.y
    };
    if nx_abs > ny_abs {
        proof {
            lemma_mul_abs_bound(n.x as int, n.x as int, 256, 256);
            lemma_mul_abs_bound(n.z as int, n.z as int, 256, 256);
            lemma_unit_sq_bounds(n.x as int, n.z as int);
        }
        let n2: i128 = (n.x as i128) * (n.x as i128) + (n.z as i128) * (n.z as i128);
        let lenw = isqrt(n2 as u128);
        proof {
            lemma_isqrt_is_sisqrt(n2 as int, lenw as int);
            assert((n.z as int) * (n.z as int) <= n2 && (-(n.x as int)) * (-(n.x as int)) <= n2)
                by (nonlinear_arith)
                requires
                    n2 == (n.x as int) * (n.x as int) + (n.z as int) * (n.z as int),
            ;
            lemma_unit_axis_bounds(n.z as int, lenw as int, n2 as int);
            lemma_unit_axis_bounds(-(n.x as int), lenw as int, n2 as int);
        }
        let len = lenw as i64;
        Vec3 { x: unit_axis(n.z, len), y: 0, z: unit_axis(-n.x, len) }
    } else {
        proof {
            lemma_mul_abs_bound(n.y as int, n.y as int, 256, 256);
            lemma_mul_abs_bound(n.z as int, n.z as int, 256, 256);
            lemma_unit_sq_bounds(n.y as int, n.z as int);
        }
        let n2: i128 = (n.y as i128) * (n.y as i128) + (n.z as i128) * (n.z as i128);
        let lenw = isqrt(n2 as u128);
        proof {
            lemma_isqrt_is_sisqrt(n2 as int, lenw as int);
            assert((n.z as int) * (n.z as int) <= n2 && (-(n.y as int)) * (-(n.y as int)) <= n2)
                by (nonlinear_arith)
                requires
                    n2 == (n.y as int) * (n.y as int) + (n.z as int) * (n.z as int),
            ;
            lemma_unit_axis_bounds(n.z as int, lenw as int, n2 as int);
            lemma_unit_axis_bounds(-(n.y as int), lenw as int, n2 as int);
        }
        let len = lenw as i64;
        Vec3 { x: 0, y: unit_axis(n.z, len), z: unit_axis(-n.y, len) }
    }
}

/// Sum of squares of two components within `SCALE` stays small and
/// nonnegative, and its root fits `i64`.
proof fn lemma_unit_sq_bounds(a: int, b: int)
    requires
        -256 <= a <= 256,
        -256 <= b <= 256,
    ensures
        0 <= a * a + b * b <= 131072,
{
    assert(0 <= a * a + b * b <= 131072) by (nonlinear_arith)
        requires
            -256 <= a <= 256,
            -256 <= b <= 256,
    ;
}

/// A component whose square is below the squared length rescales into
/// `[-SCALE, SCALE]`.
proof fn lemma_unit_axis_bounds(c: int, len: int, n2: int)
    requires
        crate::num::is_isqrt(n2, len),
        c * c <= n2,
        n2 <= 131072,
    ensures
        len == 0 ==> spec_unit_axis(c, len) == 0,
        -256 <= spec_unit_axis(c, len) <= 256,
        0 <= len <= 512,
{
    assert(-len <= c <= len) by (nonlinear_arith)
        requires
            c * c <= n2,
            n2 < (len + 1) * (len + 1),
            0 <= len,
    ;
    assert(len <= 512) by (nonlinear_arith)
        requires
            len * len <= n2,
            n2 <= 131072,
            0 <= len,
    ;
    if len != 0 {
        assert((-256) * len <= c * 256 <= 256 * len) by (nonlinear_arith)
            requires
                -len <= c <= len,
                0 < len,
        ;
        lemma_div_trunc_bounds(c * 256, len, -256, 256);
    }
}

/// `c * SCALE / len` truncated, or zero when the length is zero.
fn unit_axis(c: i64, len: i64) -> (r: i64)
    requires
        0 <= len <= 512,
        -512 <= c <= 512,
        len == 0 ==> spec_unit_axis(c as int, len as int) == 0,
        -256 <= spec_unit_axis(c as int, len as int) <= 256,
    ensures
        r == spec_unit_axis(c as int, len as int),
        -256 <= r <= 256,
{
    if len == 0 {
        0
    } else {
        div_trunc((c as i128) * 256, len as i128) as i64
    }
}

/// A local direction carried into the world frame of the normal:
/// `(a.x b + a.y c + a.z n) / SCALE` componentwise, with `b = (c x n) /
/// SCALE` the third frame vector.
pub open spec fn spec_to_world(a: Vec3, n: Vec3) -> Vec3 {
    let c = spec_basis(n);
    let bx = sdiv_trunc(crate::vec3::scross_x(c, n), 256);
    let by = sdiv_trunc(crate::vec3::scross_y(c, n), 256);
    let bz = sdiv_trunc(crate::vec3::scross_z(c, n), 256);
    Vec3 {
        x: sdiv_trunc(a.x * bx + a.y * c.x + a.z * n.x, 256) as i64,
        y: sdiv_trunc(a.x * by + a.y * c.y + a.z * n.y, 256) as i64,
        z: sdiv_trunc(a.x * bz + a.y * c.z + a.z * n.z, 256) as i64,
    }
}

/// Carry a local direction into the world frame of the normal.
pub fn to_world(a: Vec3, n: Vec3) -> (r: Vec3)
    requires
        bounded(a, SCALE as int),
        bounded(n, SCALE as int),
    ensures
        r == spec_to_world(a, n),
        bounded(r, 1024),
{
    let c = basis_of(n);
    proof {
        lemma_mul_abs_bound(c.y as int, n.z as int, 256, 256);
        lemma_mul_abs_bound(c.z as int, n.y as int, 256, 256);
        lemma_mul_abs_bound(c.z as int, n.x as int, 256, 256);
        lemma_mul_abs_bound(c.x as int, n.z as int, 256, 256);
        lemma_mul_abs_bound(c.x as int, n.y as int, 256, 256);
        lemma_mul_abs_bound(c.y as int, n.x as int, 256, 256);
    }
    let cbx: i128 = (c.y as i128) * (n.z as i128) - (c.z as i128) * (n.y as i128);
    let cby: i128 = (c.z as i128) * (n.x as i128) - (c.x as i128) * (n.z as i128);
    let cbz: i128 = (c.x as i128) * (n.y as i128) - (c.y as i128) * (n.x as i128);
    proof {
        lemma_div_trunc_bounds(cbx as int, 256, -512, 512);
        lemma_div_trunc_bounds(cby as int, 256, -512, 512);
        lemma_div_trunc_bounds(cbz as int, 256, -512, 512);
    }
    let bx = div_trunc(cbx, 256) as i64;
    let by = div_trunc(cby, 256) as i64;
    let bz = div_trunc(cbz, 256) as i64;
    let x = world_axis(a.x, bx, a.y, c.x, a.z, n.x);
    let y = world_axis(a.x, by, a.y, c.y, a.z, n.y);
    let z = world_axis(a.x, bz, a.y, c.z, a.z, n.z);
    Vec3 { x, y, z }
}

/// One component of the frame combination, `(a1 b + a2 c + a3 n) / SCALE`.
fn world_axis(a1: i64, b: i64, a2: i64, c: i64, a3: i64, n: i64) -> (r: i64)
    requires
        -256 <= a1 <= 256,
        -512 <= b <= 512,
        -256 <= a2 <= 256,
        -256 <= c <= 256,
        -256 <= a3 <= 256,
        -256 <= n <= 256,
    ensures
        r == sdiv_trunc(a1 * b + a2 * c + a3 * n, 256),
        -1024 <= r <= 1024,
{
    proof {
        lemma_mul_abs_bound(a1 as int, b as int, 256, 512);
        lemma_mul_abs_bound(a2 as int, c as int, 256, 256);
        lemma_mul_abs_bound(a3 as int, n as int, 256, 256);
        lemma_div_trunc_bounds(
            (a1 as int) * (b as int) + (a2 as int) * (c as int) + (a3 as int) * (n as int),
            256,
            -1024,
            1024,
        );
    }
    let s: i128 = (a1 as i128) * (b as i128) + (a2 as i128) * (c as i128) + (a3 as i128) * (
    n as i128);
    div_trunc(s, 256) as i64
}

/// The mirror direction `i - 2 (i . n) n / SCALE^2` for a fixed-point unit
/// normal, exact up to the stated truncation.
pub fn reflect(i: Vec3, n: Vec3) -> (r: Vec3)
    requires
        bounded(i, 0x10_0000),
        bounded(n, 0x10_0000),
    ensures
        r.x == i.x - sdiv_trunc(2 * sdot(i, n) * n.x, 65536),
        r.y == i.y - sdiv_trunc(2 * sdot(i, n) * n.y, 65536),
        r.z == i.z - sdiv_trunc(2 * sdot(i, n) * n.z, 65536),
{
    let d: i128 = i.dot(n);
    proof {
        lemma_mul_abs_bound(i.x as int, n.x as int, 0x10_0000, 0x10_0000);
        lemma_mul_abs_bound(i.y as int, n.y as int, 0x10_0000, 0x10_0000);
        lemma_mul_abs_bound(i.z as int, n.z as int, 0x10_0000, 0x10_0000);
        lemma_mul_abs_bound(2 * d as int, n.x as int, 0x80_0000_0000_0000, 0x10_0000);
        lemma_mul_abs_bound(2 * d as int, n.y as int, 0x80_0000_0000_0000, 0x10_0000);
        lemma_mul_abs_bound(2 * d as int, n.z as int, 0x80_0000_0000_0000, 0x10_0000);
        lemma_div_trunc_bounds(
            2 * (d as int) * (n.x as int),
            65536,
            -0x4000_0000_0000_0000,
            0x4000_0000_0000_0000,
        );
        lemma_div_trunc_bounds(
            2 * (d as int) * (n.y as int),
            65536,
            -0x4000_0000_0000_0000,
            0x4000_0000_0000_0000,
        );
        lemma_div_trunc_bounds(
            2 * (d as int) * (n.z as int),
            65536,
            -0x4000_0000_0000_0000,
            0x4000_0000_0000_0000,
        );
    }
    let qx = div_trunc(2 * d * (n.x as i128), 65536);
    let qy = div_trunc(2 * d * (n.y as i128), 65536);
    let qz = div_trunc(2 * d * (n.z as i128), 65536);
    Vec3 { x: i.x - (qx as i64), y: i.y - (qy as i64), z: i.z - (qz as i64) }
}

/// The hemisphere direction the diffuse model draws from two unit draws:
/// `z = |1 - 2 z1|` for the height, the parabolic sine and cosine of the
/// turn `z2` for the azimuth, carried into the normal's frame.
pub open spec fn spec_sample_dir(n: Vec3, z1: int, z2: int) -> Vec3 {
    let zc = sabs64(256 - 2 * z1);
    let rxy = sisqrt(65536 - zc * zc);
    let local = Vec3 {
        x: sdiv_trunc(rxy * spec_cos_turn(z2), 256) as i64,
        y: sdiv_trunc(rxy * spec_sin_turn(z2), 256) as i64,
        z: zc as i64,
    };
    spec_to_world(local, n)
}

/// The value `Material::eval` computes: the Lambertian `kd / pi` in fixed
/// point above the surface, zero below it.
pub open spec fn spec_eval(m: Material, wo: Vec3, n: Vec3) -> Vec3 {
    if sdot(n, wo) > 0 {
        Vec3 {
            x: crate::color::sfx_mul(m.kd.x as int, INV_PI_FX as int) as i64,
            y: crate::color::sfx_mul(m.kd.y as int, INV_PI_FX as int) as i64,
            z: crate::color::sfx_mul(m.kd.z as int, INV_PI_FX as int) as i64,
        }
    } else {
        Vec3 { x: 0, y: 0, z: 0 }
    }
}

/// The value `Material::pdf` computes: `1 / (2 pi)` in fixed point over
/// the upper hemisphere, zero below it.
pub open spec fn spec_pdf(m: Material, wi: Vec3, n: Vec3) -> int {
    if sdot(wi, n) > 0 {
        INV_2PI_FX as int
    } else {
        0
    }
}

impl Material {
    /// Draw a scattering direction from the hemisphere around the normal,
    /// uniform up to the stated fixed-point approximations, with the two
    /// unit draws supplied.
    pub fn sameple(&self, _wo: Vec3, n: Vec3, z1: i64, z2: i64) -> (r: Vec3)
        requires
            bounded(n, SCALE as int),
            0 <= z1 < SCALE,
            0 <= z2 < SCALE,
        ensures
            r == spec_sample_dir(n, z1 as int, z2 as int),
            bounded(r, 1024),
    {
        match self.m_type {
            MaterialType::Diffuse => {
                let zc = if 256 - 2 * z1 >= 0 {
                    256 - 2 * z1
                } else {
                    2 * z1 - 256
                };
                proof {
                    assert(0 <= (zc as int) * (zc as int) <= 65536) by (nonlinear_arith)
                        requires
                            0 <= zc as int <= 256,
                    ;
                }
                let rest: i128 = 65536 - (zc as i128) * (zc as i128);
                let rxyw = isqrt(rest as u128);
                proof {
                    lemma_isqrt_is_sisqrt(rest as int, rxyw as int);
                    assert(rxyw <= 256) by (nonlinear_arith)
                        requires
                            (rxyw as int) * (rxyw as int) <= rest as int,
                            rest <= 65536,
                            0 <= rxyw as int,
                    ;
                }
                let rxy = rxyw as i64;
                let cp = fx_cos_turn(z2);
                let sp = fx_sin_turn(z2);
                proof {
                    lemma_mul_abs_bound(rxy as int, cp as int, 256, 256);
                    lemma_mul_abs_bound(rxy as int, sp as int, 256, 256);
                    lemma_div_trunc_bounds((rxy as int) * (cp as int), 256, -256, 256);
                    lemma_div_trunc_bounds((rxy as int) * (sp as int), 256, -256, 256);
                }
                let lx = div_trunc((rxy as i128) * (cp as i128), 256) as i64;
                let ly = div_trunc((rxy as i128) * (sp as i128), 256) as i64;
                let local = Vec3 { x: lx, y: ly, z: zc };
                to_world(local, n)
            },
        }
    }

    /// The density the diffuse sampler draws with: `1 / (2 pi)` in fixed
    /// point over the upper hemisphere, zero below it.
    pub fn pdf(&self, wi: Vec3, _wo: Vec3, n: Vec3) -> (r: i64)
        requires
            bounded(wi, 0x10_0000),
            bounded(n, 0x10_0000),
        ensures
            r == spec_pdf(*self, wi, n),
    {
        match self.m_type {
            MaterialType::Diffuse => {
                let d: i128 = wi.dot(n);
                if d > 0 {
                    INV_2PI_FX
                } else {
                    0
                }
            },
        }
    }

    /// The reflectance the surface contributes along the pair of
    /// directions: the Lambertian value `kd / pi` in fixed point above the
    /// surface, zero below it.
    pub fn eval(&self, _wi: Vec3, wo: Vec3, n: Vec3) -> (r: Vec3)
        requires
            bounded(wo, 0x10_0000),
            bounded(n, 0x10_0000),
        ensures
            r == spec_eval(*self, wo, n),
    {
        match self.m_type {
            MaterialType::Diffuse => {
                let d: i128 = n.dot(wo);
                if d > 0 {
                    crate::color::color_scale(self.kd, INV_PI_FX)
                } else {
                    Vec3 { x: 0, y: 0, z: 0 }
                }
            },
        }
    }
}

} // verus!
