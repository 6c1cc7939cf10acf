//! Three-component vectors on the fixed-point world grid.
//!
//! A component is an `i64` counting `SCALE` steps per world unit. All
//! operations are exact integer arithmetic; products are computed in `i128`
//! so that, under the stated magnitude bounds, nothing overflows.

use vstd::prelude::*;

use crate::num::{
    div_trunc, isqrt, lemma_div_trunc_bounds, lemma_isqrt_is_sisqrt, lemma_mul_abs_bound,
    sdiv_trunc, sisqrt,
};

verus! {

/// Fixed-point steps per world unit.
pub const SCALE: i64 = 256;

/// Every coordinate handled by the geometric kernel stays within this
/// magnitude (2^19 steps, i.e. 2048 world units). The bound is what lets
/// determinants and rational cross-multiplications fit in `i128`.
pub const COORD_LIMIT: i64 = 524288;

/// Largest magnitude accepted by `add`/`sub` (2^61): the sum then fits i64.
pub const ADD_LIMIT: i64 = 0x2000_0000_0000_0000;

/// Largest magnitude accepted by `cross` (2^30): a component of the result,
/// a difference of two products, then fits i64.
pub const CROSS_LIMIT: i64 = 0x4000_0000;

/// Largest magnitude accepted by `dot` (2^62): the three products and their
/// sum then fit i128.
pub const DOT_LIMIT: i64 = 0x4000_0000_0000_0000;

#[derive(Clone, Copy, PartialEq, Eq, Structural, Debug)]
pub struct Vec3 {
    pub x: i64,
    pub y: i64,
    pub z: i64,
}

/// All three components have magnitude at most `m`.
pub open spec fn bounded(v: Vec3, m: int) -> bool {
    &&& -m <= v.x <= m
    &&& -m <= v.y <= m
    &&& -m <= v.z <= m
}

/// A vector on the world grid proper.
pub open spec fn in_world(v: Vec3) -> bool {
    bounded(v, COORD_LIMIT as int)
}

/// Minimum of two integers.
pub open spec fn smin(a: int, b: int) -> int {
    if a <= b {
        a
    } else {
        b
    }
}

/// Maximum of two integers.
pub open spec fn smax(a: int, b: int) -> int {
    if a >= b {
        a
    } else {
        b
    }
}

/// Mathematical dot product, free of overflow.
pub open spec fn sdot(a: Vec3, b: Vec3) -> int {
    a.x * b.x + a.y * b.y + a.z * b.z
}

/// The fixed-point unit vector along `v`, zero when `v` is zero.
pub open spec fn snormalized(v: Vec3) -> Vec3 {
    let len = sisqrt(sdot(v, v));
    if len == 0 {
        Vec3 { x: 0, y: 0, z: 0 }
    } else {
        Vec3 {
            x: sdiv_trunc(v.x * 256, len) as i64,
            y: sdiv_trunc(v.y * 256, len) as i64,
            z: sdiv_trunc(v.z * 256, len) as i64,
        }
    }
}

/// One component of the unit rescale.
fn unit_scale(c: i64, len: i64, Ghost(n2): Ghost<int>) -> (r: i64)
    requires
        0 < len <= 0x80_0000,
        crate::num::is_isqrt(n2, len as int),
        (c as int) * (c as int) <= n2,
    ensures
        r == sdiv_trunc(c * 256, len as int),
        -(SCALE as int) <= r <= SCALE as int,
{
    proof {
        assert(-(len as int) <= c as int <= len as int) by (nonlinear_arith)
            requires
                (c as int) * (c as int) <= n2,
                n2 < ((len as int) + 1) * ((len as int) + 1),
                0 < len as int,
        ;
        assert((-256) * (len as int) <= (c as int) * 256 <= 256 * (len as int))
            by (nonlinear_arith)
            requires
                -(len as int) <= c as int <= len as int,
                0 < len as int,
        ;
        lemma_div_trunc_bounds((c as int) * 256, len as int, -256, 256);
    }
    div_trunc((c as i128) * 256, len as i128) as i64
}

/// Mathematical cross product component along x, and its two rotations.
pub open spec fn scross_x(a: Vec3, b: Vec3) -> int {
    a.y * b.z - a.z * b.y
}

pub open spec fn scross_y(a: Vec3, b: Vec3) -> int {
    a.z * b.x - a.x * b.z
}

pub open spec fn scross_z(a: Vec3, b: Vec3) -> int {
    a.x * b.y - a.y * b.x
}

impl Vec3 {
    pub fn new(x: i64, y: i64, z: i64) -> (r: Vec3)
        ensures
            r == (Vec3 { x, y, z }),
    {
        Vec3 { x, y, z }
    }

    pub fn zero() -> (r: Vec3)
        ensures
            r == (Vec3 { x: 0, y: 0, z: 0 }),
    {
        Vec3 { x: 0, y: 0, z: 0 }
    }

    pub fn add(self, o: Vec3) -> (r: Vec3)
        requires
            bounded(self, ADD_LIMIT as int),
            bounded(o, ADD_LIMIT as int),
        ensures
            r.x == self.x + o.x,
            r.y == self.y + o.y,
            r.z == self.z + o.z,
    {
        Vec3 { x: self.x + o.x, y: self.y + o.y, z: self.z + o.z }
    }

    pub fn sub(self, o: Vec3) -> (r: Vec3)
        requires
            bounded(self, ADD_LIMIT as int),
            bounded(o, ADD_LIMIT as int),
        ensures
            r.x == self.x - o.x,
            r.y == self.y - o.y,
            r.z == self.z - o.z,
    {
        Vec3 { x: self.x - o.x, y: self.y - o.y, z: self.z - o.z }
    }

    pub fn neg(self) -> (r: Vec3)
        requires
            bounded(self, ADD_LIMIT as int),
        ensures
            r.x == -self.x,
            r.y == -self.y,
            r.z == -self.z,
    {
        Vec3 { x: -self.x, y: -self.y, z: -self.z }
    }

    /// Exact dot product, widened to `i128`.
    pub fn dot(self, o: Vec3) -> (r: i128)
        requires
            bounded(self, DOT_LIMIT as int),
            bounded(o, DOT_LIMIT as int),
        ensures
            r == sdot(self, o),
    {
        proof {
            lemma_mul_abs_bound(self.x as int, o.x as int, DOT_LIMIT as int, DOT_LIMIT as int);
            lemma_mul_abs_bound(self.y as int, o.y as int, DOT_LIMIT as int, DOT_LIMIT as int);
            lemma_mul_abs_bound(self.z as int, o.z as int, DOT_LIMIT as int, DOT_LIMIT as int);
        }
        (self.x as i128) * (o.x as i128) + (self.y as i128) * (o.y as i128) + (self.z as i128)
            * (o.z as i128)
    }

    /// Exact cross product; under `CROSS_LIMIT` each component fits i64.
    pub fn cross(self, o: Vec3) -> (r: Vec3)
        requires
            bounded(self, CROSS_LIMIT as int),
            bounded(o, CROSS_LIMIT as int),
        ensures
            r.x == scross_x(self, o),
            r.y == scross_y(self, o),
            r.z == scross_z(self, o),
            bounded(r, 2 * (CROSS_LIMIT as int) * (CROSS_LIMIT as int)),
    {
        proof {
            lemma_mul_abs_bound(self.y as int, o.z as int, CROSS_LIMIT as int, CROSS_LIMIT as int);
            lemma_mul_abs_bound(self.z as int, o.y as int, CROSS_LIMIT as int, CROSS_LIMIT as int);
            lemma_mul_abs_bound(self.z as int, o.x as int, CROSS_LIMIT as int, CROSS_LIMIT as int);
            lemma_mul_abs_bound(self.x as int, o.z as int, CROSS_LIMIT as int, CROSS_LIMIT as int);
            lemma_mul_abs_bound(self.x as int, o.y as int, CROSS_LIMIT as int, CROSS_LIMIT as int);
            lemma_mul_abs_bound(self.y as int, o.x as int, CROSS_LIMIT as int, CROSS_LIMIT as int);
        }
        let cx: i128 = (self.y as i128) * (o.z as i128) - (self.z as i128) * (o.y as i128);
        let cy: i128 = (self.z as i128) * (o.x as i128) - (self.x as i128) * (o.z as i128);
        let cz: i128 = (self.x as i128) * (o.y as i128) - (self.y as i128) * (o.x as i128);
        Vec3 { x: cx as i64, y: cy as i64, z: cz as i64 }
    }

    /// Rescale to a fixed-point unit vector: each component becomes
    /// `c * SCALE / |self|` truncated, with the rounded-down integer length;
    /// the zero vector stays zero.
    pub fn normalized(self) -> (r: Vec3)
        requires
            bounded(self, 0x20_0000),
        ensures
            r == snormalized(self),
            bounded(r, SCALE as int),
    {
        proof {
            lemma_mul_abs_bound(self.x as int, self.x as int, 0x20_0000, 0x20_0000);
            lemma_mul_abs_bound(self.y as int, self.y as int, 0x20_0000, 0x20_0000);
            lemma_mul_abs_bound(self.z as int, self.z as int, 0x20_0000, 0x20_0000);
            assert(0 <= sdot(self, self)) by (nonlinear_arith)
                requires
                    sdot(self, self) == self.x * self.x + self.y * self.y + self.z * self.z,
            ;
        }
        let n2: i128 = self.dot(self);
        let lenw = isqrt(n2 as u128);
        proof {
            lemma_isqrt_is_sisqrt(n2 as int, lenw as int);
            assert(lenw as int <= 0x80_0000) by (nonlinear_arith)
                requires
                    (lenw as int) * (lenw as int) <= n2 as int,
                    n2 as int <= 3 * 0x20_0000 * 0x20_0000,
                    0 <= lenw as int,
            ;
            assert((self.x as int) * (self.x as int) <= n2 && (self.y as int) * (self.y as int)
                <= n2 && (self.z as int) * (self.z as int) <= n2) by (nonlinear_arith)
                requires
                    n2 == (self.x as int) * (self.x as int) + (self.y as int) * (self.y as int) + (
                    self.z as int) * (self.z as int),
            ;
        }
        let len = lenw as i64;
        if len == 0 {
            Vec3 { x: 0, y: 0, z: 0 }
        } else {
            Vec3 {
                x: unit_scale(self.x, len, Ghost(n2 as int)),
                y: unit_scale(self.y, len, Ghost(n2 as int)),
                z: unit_scale(self.z, len, Ghost(n2 as int)),
            }
        }
    }

    /// Componentwise minimum (total on all of i64).
    pub fn min(self, o: Vec3) -> (r: Vec3)
        ensures
            r.x == smin(self.x as int, o.x as int),
            r.y == smin(self.y as int, o.y as int),
            r.z == smin(self.z as int, o.z as int),
    {
        Vec3 {
            x: if self.x <= o.x {
                self.x
            } else {
                o.x
            },
            y: if self.y <= o.y {
                self.y
            } else {
                o.y
            },
            z: if self.z <= o.z {
                self.z
            } else {
                o.z
            },
        }
    }

    /// Componentwise maximum (total on all of i64).
    pub fn max(self, o: Vec3) -> (r: Vec3)
        ensures
            r.x == smax(self.x as int, o.x as int),
            r.y == smax(self.y as int, o.y as int),
            r.z == smax(self.z as int, o.z as int),
    {
        Vec3 {
            x: if self.x >= o.x {
                self.x
            } else {
                o.x
            },
            y: if self.y >= o.y {
                self.y
            } else {
                o.y
            },
            z: if self.z >= o.z {
                self.z
            } else {
                o.z
            },
        }
    }
}

} // verus!
