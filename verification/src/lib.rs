//! A BVH-accelerated Monte Carlo path tracer core over exact fixed-point
//! arithmetic.
//!
//! Geometry lives on an integer grid: a world coordinate is an `i64` holding
//! `SCALE` steps per world unit, and every geometric predicate (slab test,
//! ray/triangle intersection, nearest-hit selection) is decided exactly, in
//! integer and rational arithmetic, so each carries a precise contract.
//! Quantities that are irrational in real arithmetic (unit normals, sampled
//! directions, radiance) are fixed-point values whose rounding is stated
//! exactly in the contracts.

pub mod bounds3;
pub mod bvh;
pub mod color;
pub mod intersection;
pub mod material;
pub mod num;
pub mod object;
pub mod rat;
pub mod ray;
pub mod renderer;
pub mod rgb;
pub mod rng;
pub mod scene;
pub mod triangle;
pub mod vec3;
