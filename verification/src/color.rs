//! Saturating fixed-point radiance arithmetic.
//!
//! Radiance values are `Vec3` components in `SCALE` fixed point. Products
//! and quotients are truncated exactly as stated, and every operation
//! saturates at `CMAX`, so unbounded estimator terms cannot overflow.

use vstd::prelude::*;

use crate::num::{div_trunc, sdiv_trunc};
use crate::vec3::Vec3;

verus! {

/// Saturation bound for radiance components (2^62).
pub const CMAX: i64 = 0x4000_0000_0000_0000;

/// Clamp into the radiance range.
pub open spec fn sat(v: int) -> int {
    if v > CMAX as int {
        CMAX as int
    } else if v < -(CMAX as int) {
        -(CMAX as int)
    } else {
        v
    }
}

/// Fixed-point product: `a * b / SCALE`, truncated, saturated.
pub open spec fn sfx_mul(a: int, b: int) -> int {
    sat(sdiv_trunc(a * b, 256))
}

/// Fixed-point quotient: `a * SCALE / b`, truncated, saturated; `b > 0`.
pub open spec fn sfx_div(a: int, b: int) -> int {
    sat(sdiv_trunc(a * 256, b))
}

/// Saturating sum.
pub open spec fn ssat_add(a: int, b: int) -> int {
    sat(a + b)
}

fn clamp128(v: i128) -> (r: i64)
    ensures
        r == sat(v as int),
{
    if v > CMAX as i128 {
        CMAX
    } else if v < -(CMAX as i128) {
        -CMAX
    } else {
        v as i64
    }
}

pub fn fx_mul(a: i64, b: i64) -> (r: i64)
    ensures
        r == sfx_mul(a as int, b as int),
{
    proof {
        crate::num::lemma_mul_abs_bound(
            a as int,
            b as int,
            0x8000_0000_0000_0000,
            0x8000_0000_0000_0000,
        );
    }
    let p: i128 = (a as i128) * (b as i128);
    clamp128(div_trunc(p, 256))
}

pub fn fx_div(a: i64, b: i64) -> (r: i64)
    requires
        b > 0,
    ensures
        r == sfx_div(a as int, b as int),
{
    let p: i128 = (a as i128) * 256;
    clamp128(div_trunc(p, b as i128))
}

pub fn sat_add(a: i64, b: i64) -> (r: i64)
    ensures
        r == ssat_add(a as int, b as int),
{
    clamp128((a as i128) + (b as i128))
}

/// Componentwise fixed-point product of two colors.
pub fn color_mul(a: Vec3, b: Vec3) -> (r: Vec3)
    ensures
        r.x == sfx_mul(a.x as int, b.x as int),
        r.y == sfx_mul(a.y as int, b.y as int),
        r.z == sfx_mul(a.z as int, b.z as int),
{
    Vec3 { x: fx_mul(a.x, b.x), y: fx_mul(a.y, b.y), z: fx_mul(a.z, b.z) }
}

/// A color scaled by a fixed-point factor.
pub fn color_scale(a: Vec3, s: i64) -> (r: Vec3)
    ensures
        r.x == sfx_mul(a.x as int, s as int),
        r.y == sfx_mul(a.y as int, s as int),
        r.z == sfx_mul(a.z as int, s as int),
{
    Vec3 { x: fx_mul(a.x, s), y: fx_mul(a.y, s), z: fx_mul(a.z, s) }
}

/// A color divided by a positive fixed-point factor.
pub fn color_div(a: Vec3, d: i64) -> (r: Vec3)
    requires
        d > 0,
    ensures
        r.x == sfx_div(a.x as int, d as int),
        r.y == sfx_div(a.y as int, d as int),
        r.z == sfx_div(a.z as int, d as int),
{
    Vec3 { x: fx_div(a.x, d), y: fx_div(a.y, d), z: fx_div(a.z, d) }
}

/// Nonnegative factors keep a fixed-point product nonnegative.
pub proof fn lemma_sfx_mul_nonneg(a: int, b: int)
    requires
        0 <= a,
        0 <= b,
    ensures
        0 <= sfx_mul(a, b),
{
    assert(0 <= a * b) by (nonlinear_arith)
        requires
            0 <= a,
            0 <= b,
    ;
    vstd::arithmetic::div_mod::lemma_div_pos_is_pos(a * b, 256);
}

/// A nonnegative numerator keeps a fixed-point quotient nonnegative.
pub proof fn lemma_sfx_div_nonneg(a: int, b: int)
    requires
        0 <= a,
        0 < b,
    ensures
        0 <= sfx_div(a, b),
{
    vstd::arithmetic::div_mod::lemma_div_pos_is_pos(a * 256, b);
}

/// Saturating componentwise sum of two colors.
pub fn color_add(a: Vec3, b: Vec3) -> (r: Vec3)
    ensures
        r.x == ssat_add(a.x as int, b.x as int),
        r.y == ssat_add(a.y as int, b.y as int),
        r.z == ssat_add(a.z as int, b.z as int),
{
    Vec3 { x: sat_add(a.x, b.x), y: sat_add(a.y, b.y), z: sat_add(a.z, b.z) }
}

} // verus!
