//! Rays with grid origin and direction, evaluated exactly.
//!
//! The parametric point `origin + t * direction` at a rational `t` is itself
//! rational; `on` returns it rounded toward zero onto the grid and states the
//! rounding exactly.

use vstd::prelude::*;

use crate::num::{div_trunc, lemma_div_trunc_bounds, lemma_mul_abs_bound, sdiv_trunc};
use crate::rat::{Rat, RAT_LIMIT};
use crate::vec3::{bounded, in_world, Vec3, COORD_LIMIT};

verus! {

#[derive(Clone, Copy, PartialEq, Eq, Structural, Debug)]
pub struct Ray {
    pub origin: Vec3,
    pub direction: Vec3,
}

/// Numerator of the axis coordinate of `origin + t * direction` over the
/// denominator `t.den`.
pub open spec fn on_axis_num(o: int, d: int, tn: int, td: int) -> int {
    o * td + tn * d
}

impl Ray {
    pub open spec fn wf(self) -> bool {
        &&& in_world(self.origin)
        &&& in_world(self.direction)
    }

    pub fn new(origin: Vec3, direction: Vec3) -> (r: Ray)
        ensures
            r.origin == origin,
            r.direction == direction,
    {
        Ray { origin, direction }
    }

    /// The point reached at parameter `t`, rounded toward zero onto the
    /// grid, for a parameter whose exact point lies inside the world cube.
    pub fn on(&self, t: Rat) -> (r: Vec3)
        requires
            self.wf(),
            t.wf(),
            sabs_le_world(self.origin.x as int, self.direction.x as int, t),
            sabs_le_world(self.origin.y as int, self.direction.y as int, t),
            sabs_le_world(self.origin.z as int, self.direction.z as int, t),
        ensures
            r.x == self.origin.x + sdiv_trunc(t.num * self.direction.x, t.den as int),
            r.y == self.origin.y + sdiv_trunc(t.num * self.direction.y, t.den as int),
            r.z == self.origin.z + sdiv_trunc(t.num * self.direction.z, t.den as int),
            in_world(r),
    {
        let x = self.on_axis(self.origin.x, self.direction.x, t);
        let y = self.on_axis(self.origin.y, self.direction.y, t);
        let z = self.on_axis(self.origin.z, self.direction.z, t);
        Vec3 { x, y, z }
    }

    fn on_axis(&self, o: i64, d: i64, t: Rat) -> (r: i64)
        requires
            t.wf(),
            -(COORD_LIMIT as int) <= o <= COORD_LIMIT as int,
            -(COORD_LIMIT as int) <= d <= COORD_LIMIT as int,
            sabs_le_world(o as int, d as int, t),
        ensures
            r == o + sdiv_trunc(t.num * d, t.den as int),
            -(COORD_LIMIT as int) <= r <= COORD_LIMIT as int,
    {
        proof {
            lemma_mul_abs_bound(t.num as int, d as int, RAT_LIMIT as int, COORD_LIMIT as int);
        }
        let q: i128 = div_trunc(t.num * (d as i128), t.den);
        proof {
            let cl = COORD_LIMIT as int;
            let td = t.den as int;
            assert((-cl - o) * td == -cl * td - o * td) by (nonlinear_arith);
            assert((cl - o) * td == cl * td - o * td) by (nonlinear_arith);
            lemma_div_trunc_bounds(t.num * d, td, -cl - o, cl - o);
        }
        o + (q as i64)
    }
}

/// The axis coordinate of `origin + t * direction` stays within the world
/// cube: `|o * t.den + t.num * d| <= COORD_LIMIT * t.den`.
pub open spec fn sabs_le_world(o: int, d: int, t: Rat) -> bool {
    &&& -(COORD_LIMIT as int) * t.den <= on_axis_num(o, d, t.num as int, t.den as int)
    &&& on_axis_num(o, d, t.num as int, t.den as int) <= (COORD_LIMIT as int) * t.den
}

} // verus!
