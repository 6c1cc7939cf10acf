//! Triangles and their exact ray intersection.
//!
//! The linear system `[-D, e1, e2] * [t, u, v]^T = O - v0` is solved by
//! Cramer's rule with cross products. On the integer grid the determinant
//! and the three numerators are exact, so acceptance (`det > 0`, barycentric
//! containment, `t >= 0`) is decided without any epsilon, and the returned
//! distance is the exact rational `t_num / det`. A nonpositive determinant
//! covers both a back-facing and a degenerate triangle: both are misses.

use vstd::prelude::*;

use crate::bounds3::Bounds3;
use crate::intersection::{Intersection, SampleResult};
use crate::material::Material;
use crate::num::{
    div_trunc, is_isqrt, isqrt, lemma_div_trunc_bounds, lemma_isqrt_is_sisqrt, lemma_mul_abs_bound,
    lemma_mul_le_mono, sdiv_trunc, sisqrt,
};
use crate::rat::{Rat, RAT_LIMIT};
use crate::ray::{on_axis_num, Ray};
use crate::vec3::{
    bounded, in_world, scross_x, scross_y, scross_z, smax, smin, Vec3, COORD_LIMIT, SCALE,
};

verus! {

/// Twice a triangle's area, in grid steps, never exceeds this (2^44).
pub const AREA2_LIMIT: i64 = 0x1000_0000_0000;

#[derive(Clone, Copy, PartialEq, Eq, Structural, Debug)]
pub struct Triangle {
    /// Vertices in counter-clockwise order seen from the outside.
    pub v0: Vec3,
    pub v1: Vec3,
    pub v2: Vec3,
    /// Cached edges `v1 - v0` and `v2 - v0`.
    pub e1: Vec3,
    pub e2: Vec3,
    /// Fixed-point unit normal (length close to `SCALE`), zero when the
    /// triangle is degenerate.
    pub normal: Vec3,
    /// Twice the area in grid steps: `isqrt(|e1 x e2|^2)`.
    pub area2: i64,
    pub m: Material,
    pub bounding_box: Bounds3,
}

/// Squared length of `e1 x e2`.
pub open spec fn cross_norm2(t: Triangle) -> int {
    let cx = scross_x(t.e1, t.e2);
    let cy = scross_y(t.e1, t.e2);
    let cz = scross_z(t.e1, t.e2);
    cx * cx + cy * cy + cz * cz
}

/// Components of `pvec = direction x e2`.
pub open spec fn tri_px(t: Triangle, r: Ray) -> int {
    scross_x(r.direction, t.e2)
}

pub open spec fn tri_py(t: Triangle, r: Ray) -> int {
    scross_y(r.direction, t.e2)
}

pub open spec fn tri_pz(t: Triangle, r: Ray) -> int {
    scross_z(r.direction, t.e2)
}

/// The determinant `e1 . (direction x e2)`; positive exactly for a
/// front-facing, nondegenerate configuration.
pub open spec fn tri_det(t: Triangle, r: Ray) -> int {
    t.e1.x * tri_px(t, r) + t.e1.y * tri_py(t, r) + t.e1.z * tri_pz(t, r)
}

/// Numerator of the barycentric coordinate `u`: `(origin - v0) . pvec`.
pub open spec fn tri_u_num(t: Triangle, r: Ray) -> int {
    (r.origin.x - t.v0.x) * tri_px(t, r) + (r.origin.y - t.v0.y) * tri_py(t, r) + (r.origin.z
        - t.v0.z) * tri_pz(t, r)
}

/// Components of `qvec = (origin - v0) x e1`.
pub open spec fn tri_qx(t: Triangle, r: Ray) -> int {
    (r.origin.y - t.v0.y) * t.e1.z - (r.origin.z - t.v0.z) * t.e1.y
}

pub open spec fn tri_qy(t: Triangle, r: Ray) -> int {
    (r.origin.z - t.v0.z) * t.e1.x - (r.origin.x - t.v0.x) * t.e1.z
}

pub open spec fn tri_qz(t: Triangle, r: Ray) -> int {
    (r.origin.x - t.v0.x) * t.e1.y - (r.origin.y - t.v0.y) * t.e1.x
}

/// Numerator of the barycentric coordinate `v`: `direction . qvec`.
pub open spec fn tri_v_num(t: Triangle, r: Ray) -> int {
    r.direction.x * tri_qx(t, r) + r.direction.y * tri_qy(t, r) + r.direction.z * tri_qz(t, r)
}

/// Numerator of the ray parameter `t`: `e2 . qvec`.
pub open spec fn tri_t_num(t: Triangle, r: Ray) -> int {
    t.e2.x * tri_qx(t, r) + t.e2.y * tri_qy(t, r) + t.e2.z * tri_qz(t, r)
}

/// The hit record a ray/triangle hit produces: the exact rational
/// parameter `t_num / det`, the triangle's stored normal and material, and
/// the grid-rounded hit point.
pub open spec fn spec_tri_hit_record(t: Triangle, r: Ray) -> Intersection {
    Intersection {
        coords: Vec3 {
            x: (r.origin.x + sdiv_trunc(tri_t_num(t, r) * r.direction.x, tri_det(t, r))) as i64,
            y: (r.origin.y + sdiv_trunc(tri_t_num(t, r) * r.direction.y, tri_det(t, r))) as i64,
            z: (r.origin.z + sdiv_trunc(tri_t_num(t, r) * r.direction.z, tri_det(t, r))) as i64,
        },
        normal: t.normal,
        distance: Rat { num: tri_t_num(t, r) as i128, den: tri_det(t, r) as i128 },
        m: t.m,
    }
}

/// What a hit record of triangle `t` under ray `r` holds: the exact
/// rational parameter `t_num / det`, the triangle's stored normal and
/// material, and the grid-rounded hit point.
pub open spec fn hit_matches(t: Triangle, r: Ray, h: Intersection) -> bool {
    &&& h.distance.num == tri_t_num(t, r)
    &&& h.distance.den == tri_det(t, r)
    &&& h.normal == t.normal
    &&& h.m == t.m
    &&& h.coords.x == r.origin.x + sdiv_trunc(tri_t_num(t, r) * r.direction.x, tri_det(t, r))
    &&& h.coords.y == r.origin.y + sdiv_trunc(tri_t_num(t, r) * r.direction.y, tri_det(t, r))
    &&& h.coords.z == r.origin.z + sdiv_trunc(tri_t_num(t, r) * r.direction.z, tri_det(t, r))
    &&& h.wf()
}

/// The ray meets the triangle: front-facing nonzero determinant, both
/// barycentric coordinates and their sum within the simplex, parameter
/// nonnegative. All conditions are exact over the cleared denominator.
pub open spec fn tri_hits(t: Triangle, r: Ray) -> bool {
    let det = tri_det(t, r);
    let un = tri_u_num(t, r);
    let vn = tri_v_num(t, r);
    let tn = tri_t_num(t, r);
    &&& det > 0
    &&& 0 <= un <= det
    &&& 0 <= vn
    &&& un + vn <= det
    &&& 0 <= tn
}

impl Triangle {
    pub open spec fn wf(self) -> bool {
        &&& in_world(self.v0)
        &&& in_world(self.v1)
        &&& in_world(self.v2)
        &&& self.e1.x == self.v1.x - self.v0.x
        &&& self.e1.y == self.v1.y - self.v0.y
        &&& self.e1.z == self.v1.z - self.v0.z
        &&& self.e2.x == self.v2.x - self.v0.x
        &&& self.e2.y == self.v2.y - self.v0.y
        &&& self.e2.z == self.v2.z - self.v0.z
        &&& self.bounding_box.min.x == smin(smin(self.v0.x as int, self.v1.x as int), self.v2.x as int)
        &&& self.bounding_box.min.y == smin(smin(self.v0.y as int, self.v1.y as int), self.v2.y as int)
        &&& self.bounding_box.min.z == smin(smin(self.v0.z as int, self.v1.z as int), self.v2.z as int)
        &&& self.bounding_box.max.x == smax(smax(self.v0.x as int, self.v1.x as int), self.v2.x as int)
        &&& self.bounding_box.max.y == smax(smax(self.v0.y as int, self.v1.y as int), self.v2.y as int)
        &&& self.bounding_box.max.z == smax(smax(self.v0.z as int, self.v1.z as int), self.v2.z as int)
        &&& is_isqrt(cross_norm2(self), self.area2 as int)
        &&& 0 <= self.area2 <= AREA2_LIMIT
        &&& self.normal.x == spec_normal_axis(scross_x(self.e1, self.e2), self.area2 as int)
        &&& self.normal.y == spec_normal_axis(scross_y(self.e1, self.e2), self.area2 as int)
        &&& self.normal.z == spec_normal_axis(scross_z(self.e1, self.e2), self.area2 as int)
        &&& bounded(self.normal, SCALE as int)
    }

    pub fn new(v0: Vec3, v1: Vec3, v2: Vec3, m: Material) -> (r: Triangle)
        requires
            in_world(v0),
            in_world(v1),
            in_world(v2),
        ensures
            r.v0 == v0,
            r.v1 == v1,
            r.v2 == v2,
            r.m == m,
            r.wf(),
    {
        let e1 = v1.sub(v0);
        let e2 = v2.sub(v0);
        let c = e1.cross(e2);
        proof {
            lemma_mul_abs_bound(e1.y as int, e2.z as int, 0x10_0000, 0x10_0000);
            lemma_mul_abs_bound(e1.z as int, e2.y as int, 0x10_0000, 0x10_0000);
            lemma_mul_abs_bound(e1.z as int, e2.x as int, 0x10_0000, 0x10_0000);
            lemma_mul_abs_bound(e1.x as int, e2.z as int, 0x10_0000, 0x10_0000);
            lemma_mul_abs_bound(e1.x as int, e2.y as int, 0x10_0000, 0x10_0000);
            lemma_mul_abs_bound(e1.y as int, e2.x as int, 0x10_0000, 0x10_0000);
        }
        let n2: i128 = c.dot(c);
        proof {
            assert(n2 >= 0) by (nonlinear_arith)
                requires
                    n2 == (c.x as int) * (c.x as int) + (c.y as int) * (c.y as int) + (c.z as int)
                        * (c.z as int),
            ;
        }
        let len = isqrt(n2 as u128);
        proof {
            // cross components stay below 2^41, so n2 < 3 * 2^82 < 2^88 and
            // the root stays below AREA2_LIMIT = 2^44.
            assert(n2 < 0x1000_0000_0000 * 0x1000_0000_0000) by (nonlinear_arith)
                requires
                    -0x200_0000_0000 <= c.x as int <= 0x200_0000_0000,
                    -0x200_0000_0000 <= c.y as int <= 0x200_0000_0000,
                    -0x200_0000_0000 <= c.z as int <= 0x200_0000_0000,
                    n2 == (c.x as int) * (c.x as int) + (c.y as int) * (c.y as int) + (c.z as int)
                        * (c.z as int),
            ;
            assert(len as int <= 0x1000_0000_0000) by (nonlinear_arith)
                requires
                    (len as int) * (len as int) <= n2 as int,
                    n2 < 0x1000_0000_0000 * 0x1000_0000_0000,
                    0 <= len as int,
            ;
        }
        let area2: i64 = len as i64;
        proof {
            assert((c.x as int) * (c.x as int) <= n2 && (c.y as int) * (c.y as int) <= n2 && (
            c.z as int) * (c.z as int) <= n2) by (nonlinear_arith)
                requires
                    n2 == (c.x as int) * (c.x as int) + (c.y as int) * (c.y as int) + (c.z as int)
                        * (c.z as int),
            ;
        }
        let normal = if area2 == 0 {
            Vec3::zero()
        } else {
            Vec3 {
                x: normal_axis(c.x, area2, Ghost(n2 as int)),
                y: normal_axis(c.y, area2, Ghost(n2 as int)),
                z: normal_axis(c.z, area2, Ghost(n2 as int)),
            }
        };
        let bounding_box = Bounds3::from_min_max(v0, v1).union_point(v2);
        Triangle { v0, v1, v2, e1, e2, normal, area2, m, bounding_box }
    }

    pub fn get_bounds(&self) -> (r: Bounds3)
        ensures
            r == self.bounding_box,
    {
        self.bounding_box
    }

    pub fn has_emit(&self) -> (r: bool)
        ensures
            r == crate::material::spec_has_emission(self.m),
    {
        self.m.has_emission()
    }

    /// Exact nearest-hit query against this triangle.
    pub fn get_intersection(&self, ray: &Ray) -> (r: Option<Intersection>)
        requires
            self.wf(),
            ray.wf(),
        ensures
            r == if tri_hits(*self, *ray) {
                Some(spec_tri_hit_record(*self, *ray))
            } else {
                None::<Intersection>
            },
            (r is Some) == tri_hits(*self, *ray),
            r matches Some(h) ==> hit_matches(*self, *ray, h),
    {
        let pvec = ray.direction.cross(self.e2);
        let det: i128 = self.e1.dot(pvec);
        proof {
            lemma_numerator_bounds(*self, *ray);
        }
        if det <= 0 {
            // back-facing or degenerate: a miss, exactly
            return None;
        }
        let w = ray.origin.sub(self.v0);
        let u_num: i128 = w.dot(pvec);
        if u_num < 0 || u_num > det {
            return None;
        }
        let qvec = w.cross(self.e1);
        let v_num: i128 = ray.direction.dot(qvec);
        if v_num < 0 || u_num + v_num > det {
            return None;
        }
        let t_num: i128 = self.e2.dot(qvec);
        if t_num < 0 {
            return None;
        }
        let distance = Rat::new(t_num, det);
        proof {
            lemma_hit_point_in_box(*self, *ray);
            let cl = COORD_LIMIT as int;
            lemma_mul_le_mono(-cl, self.bounding_box.min.x as int, det as int);
            lemma_mul_le_mono(self.bounding_box.max.x as int, cl, det as int);
            lemma_mul_le_mono(-cl, self.bounding_box.min.y as int, det as int);
            lemma_mul_le_mono(self.bounding_box.max.y as int, cl, det as int);
            lemma_mul_le_mono(-cl, self.bounding_box.min.z as int, det as int);
            lemma_mul_le_mono(self.bounding_box.max.z as int, cl, det as int);
        }
        let coords = ray.on(distance);
        Some(Intersection { coords, normal: self.normal, distance, m: self.m })
    }
}

/// What a point sampled on triangle `t` with unit draws `z1, z2` (in
/// `[0, SCALE)`) holds: the exact grid rounding of the barycentric point
/// `v0 (1-x) + v1 x (1-y) + v2 x y` with `x = sqrt(z1/SCALE)`, and the
/// area-measure density `1 / area`, exact as the rational
/// `2 SCALE^2 / area2`.
pub open spec fn sample_point_matches(t: Triangle, z1: int, z2: int, coords: Vec3, normal: Vec3) -> bool {
    let x = sisqrt(z1 * 256);
    let c1 = x * (256 - z2);
    let c2 = x * z2;
    &&& coords.x == t.v0.x + sdiv_trunc(c1 * t.e1.x + c2 * t.e2.x, 65536)
    &&& coords.y == t.v0.y + sdiv_trunc(c1 * t.e1.y + c2 * t.e2.y, 65536)
    &&& coords.z == t.v0.z + sdiv_trunc(c1 * t.e1.z + c2 * t.e2.z, 65536)
    &&& normal == t.normal
    &&& in_world(coords)
}

pub open spec fn sample_matches(t: Triangle, z1: int, z2: int, res: SampleResult) -> bool {
    &&& sample_point_matches(t, z1, z2, res.coords, res.normal)
    &&& res.pdf.num == 131072
    &&& res.pdf.den == t.area2
    &&& res.pdf.wf()
}

/// The sample record the two unit draws produce on triangle `t`.
pub open spec fn spec_tri_sample(t: Triangle, z1: int, z2: int) -> SampleResult {
    let x = sisqrt(z1 * 256);
    let c1 = x * (256 - z2);
    let c2 = x * z2;
    SampleResult {
        coords: Vec3 {
            x: (t.v0.x + sdiv_trunc(c1 * t.e1.x + c2 * t.e2.x, 65536)) as i64,
            y: (t.v0.y + sdiv_trunc(c1 * t.e1.y + c2 * t.e2.y, 65536)) as i64,
            z: (t.v0.z + sdiv_trunc(c1 * t.e1.z + c2 * t.e2.z, 65536)) as i64,
        },
        normal: t.normal,
        pdf: Rat { num: 131072, den: t.area2 as i128 },
    }
}

impl Triangle {
    /// Draw the point determined by the two unit draws, uniformly by area
    /// up to grid rounding, with its exact density.
    pub fn sample_with(&self, z1: i64, z2: i64) -> (r: SampleResult)
        requires
            self.wf(),
            0 <= z1 < SCALE,
            0 <= z2 < SCALE,
            self.area2 > 0,
        ensures
            r == spec_tri_sample(*self, z1 as int, z2 as int),
            sample_matches(*self, z1 as int, z2 as int, r),
    {
        let xw = isqrt((z1 * SCALE) as u128);
        proof {
            let zs = (z1 as int) * 256;
            lemma_isqrt_is_sisqrt(zs, xw as int);
            assert(xw < 256) by (nonlinear_arith)
                requires
                    (xw as int) * (xw as int) <= zs,
                    zs < 65536,
                    0 <= xw as int,
            ;
        }
        let x = xw as i64;
        proof {
            lemma_mul_abs_bound(x as int, (SCALE - z2) as int, 256, 256);
            lemma_mul_abs_bound(x as int, z2 as int, 256, 256);
        }
        let c1: i128 = (x as i128) * ((SCALE - z2) as i128);
        let c2: i128 = (x as i128) * (z2 as i128);
        proof {
            assert((x as int) * ((SCALE - z2) as int) + (x as int) * (z2 as int) == (x as int) * (
            SCALE as int)) by (nonlinear_arith);
            assert((x as int) * (SCALE as int) <= 65536) by (nonlinear_arith)
                requires
                    0 <= x as int <= 255,
                    SCALE == 256,
            ;
            assert(c1 >= 0 && c2 >= 0) by (nonlinear_arith)
                requires
                    c1 == (x as int) * ((SCALE - z2) as int),
                    c2 == (x as int) * (z2 as int),
                    0 <= x as int,
                    0 < SCALE - z2,
                    0 <= z2,
            ;
        }
        let cx = sample_axis(
            self.v0.x,
            self.e1.x,
            self.e2.x,
            c1,
            c2,
            Ghost(self.v1.x as int),
            Ghost(self.v2.x as int),
        );
        let cy = sample_axis(
            self.v0.y,
            self.e1.y,
            self.e2.y,
            c1,
            c2,
            Ghost(self.v1.y as int),
            Ghost(self.v2.y as int),
        );
        let cz = sample_axis(
            self.v0.z,
            self.e1.z,
            self.e2.z,
            c1,
            c2,
            Ghost(self.v1.z as int),
            Ghost(self.v2.z as int),
        );
        SampleResult {
            coords: Vec3 { x: cx, y: cy, z: cz },
            normal: self.normal,
            pdf: Rat::new(131072, self.area2 as i128),
        }
    }
}

/// One axis of the sampled point: `v0 + (c1 e1 + c2 e2) / SCALE^2`,
/// truncated; a convex combination, so it stays between the vertices.
fn sample_axis(
    v0: i64,
    e1: i64,
    e2: i64,
    c1: i128,
    c2: i128,
    Ghost(v1): Ghost<int>,
    Ghost(v2): Ghost<int>,
) -> (r: i64)
    requires
        0 <= c1,
        0 <= c2,
        c1 + c2 <= 65536,
        e1 == v1 - v0,
        e2 == v2 - v0,
        -(COORD_LIMIT as int) <= v0 <= COORD_LIMIT as int,
        -(COORD_LIMIT as int) <= v1 <= COORD_LIMIT as int,
        -(COORD_LIMIT as int) <= v2 <= COORD_LIMIT as int,
    ensures
        r == v0 + sdiv_trunc(c1 * e1 + c2 * e2, 65536),
        -(COORD_LIMIT as int) <= r <= COORD_LIMIT as int,
{
    proof {
        lemma_mul_abs_bound(c1 as int, e1 as int, 65536, 0x20_0000);
        lemma_mul_abs_bound(c2 as int, e2 as int, 65536, 0x20_0000);
        let mn = smin(smin(v0 as int, v1), v2);
        let mx = smax(smax(v0 as int, v1), v2);
        lemma_convex_bound(65536 - c1 - c2, c1 as int, c2 as int, v0 as int, v1, v2, mn, mx);
        assert((65536 - c1 - c2) * v0 + c1 * v1 + c2 * v2 == 65536 * v0 + (c1 * e1 + c2 * e2))
            by (nonlinear_arith)
            requires
                e1 == v1 - v0,
                e2 == v2 - v0,
        ;
        assert((mn - v0) * 65536 <= c1 * e1 + c2 * e2 <= (mx - v0) * 65536) by (nonlinear_arith)
            requires
                mn * (65536 - c1 - c2 + c1 + c2) <= 65536 * v0 + (c1 * e1 + c2 * e2),
                65536 * v0 + (c1 * e1 + c2 * e2) <= mx * (65536 - c1 - c2 + c1 + c2),
        ;
        lemma_div_trunc_bounds(c1 * e1 + c2 * e2, 65536, mn - v0, mx - v0);
    }
    let q = div_trunc(c1 * (e1 as i128) + c2 * (e2 as i128), 65536);
    v0 + (q as i64)
}

/// One fixed-point component of the unit normal: `c * SCALE / len`,
/// truncated; `len` is the rounded-down length of the cross product whose
/// component `c` is.
pub open spec fn spec_normal_axis(c: int, area2: int) -> int {
    if area2 == 0 {
        0
    } else {
        sdiv_trunc(c * SCALE, area2)
    }
}

fn normal_axis(c: i64, area2: i64, Ghost(n2): Ghost<int>) -> (r: i64)
    requires
        0 < area2 <= AREA2_LIMIT as int,
        is_isqrt(n2, area2 as int),
        (c as int) * (c as int) <= n2,
    ensures
        r == spec_normal_axis(c as int, area2 as int),
        -(SCALE as int) <= r <= SCALE as int,
{
    proof {
        // |c| <= area2 because c^2 <= n2 < (area2 + 1)^2.
        assert(-(area2 as int) <= c as int <= area2 as int) by (nonlinear_arith)
            requires
                (c as int) * (c as int) <= n2,
                n2 < ((area2 as int) + 1) * ((area2 as int) + 1),
                0 < area2 as int,
        ;
        lemma_mul_abs_bound(c as int, SCALE as int, AREA2_LIMIT as int, SCALE as int);
        assert((-(SCALE as int)) * (area2 as int) <= (c as int) * (SCALE as int) <= (
        SCALE as int) * (area2 as int)) by (nonlinear_arith)
            requires
                -(area2 as int) <= c as int <= area2 as int,
                0 < area2 as int,
                0 < SCALE as int,
        ;
        lemma_div_trunc_bounds(
            (c as int) * (SCALE as int),
            area2 as int,
            -(SCALE as int),
            SCALE as int,
        );
    }
    let q = div_trunc((c as i128) * (SCALE as i128), area2 as i128);
    q as i64
}

/// Magnitude bounds on the determinant and the three numerators: all stay
/// within `RAT_LIMIT`, so they form well-formed rationals.
pub proof fn lemma_numerator_bounds(t: Triangle, r: Ray)
    requires
        t.wf(),
        r.wf(),
    ensures
        -(RAT_LIMIT as int) <= tri_det(t, r) <= RAT_LIMIT as int,
        -(RAT_LIMIT as int) <= tri_u_num(t, r) <= RAT_LIMIT as int,
        -(RAT_LIMIT as int) <= tri_v_num(t, r) <= RAT_LIMIT as int,
        -(RAT_LIMIT as int) <= tri_t_num(t, r) <= RAT_LIMIT as int,
{
    // Literal magnitude steps: coordinates 2^19, edges and offsets 2^20,
    // pvec components 2^40, qvec components 2^41, dot products 3 * 2^61.
    lemma_mul_abs_bound(r.direction.y as int, t.e2.z as int, 0x8_0000, 0x10_0000);
    lemma_mul_abs_bound(r.direction.z as int, t.e2.y as int, 0x8_0000, 0x10_0000);
    lemma_mul_abs_bound(r.direction.z as int, t.e2.x as int, 0x8_0000, 0x10_0000);
    lemma_mul_abs_bound(r.direction.x as int, t.e2.z as int, 0x8_0000, 0x10_0000);
    lemma_mul_abs_bound(r.direction.x as int, t.e2.y as int, 0x8_0000, 0x10_0000);
    lemma_mul_abs_bound(r.direction.y as int, t.e2.x as int, 0x8_0000, 0x10_0000);
    assert(-0x100_0000_0000 <= tri_px(t, r) <= 0x100_0000_0000);
    assert(-0x100_0000_0000 <= tri_py(t, r) <= 0x100_0000_0000);
    assert(-0x100_0000_0000 <= tri_pz(t, r) <= 0x100_0000_0000);
    lemma_mul_abs_bound(t.e1.x as int, tri_px(t, r), 0x10_0000, 0x100_0000_0000);
    lemma_mul_abs_bound(t.e1.y as int, tri_py(t, r), 0x10_0000, 0x100_0000_0000);
    lemma_mul_abs_bound(t.e1.z as int, tri_pz(t, r), 0x10_0000, 0x100_0000_0000);
    lemma_mul_abs_bound(r.origin.x - t.v0.x, tri_px(t, r), 0x10_0000, 0x100_0000_0000);
    lemma_mul_abs_bound(r.origin.y - t.v0.y, tri_py(t, r), 0x10_0000, 0x100_0000_0000);
    lemma_mul_abs_bound(r.origin.z - t.v0.z, tri_pz(t, r), 0x10_0000, 0x100_0000_0000);
    lemma_mul_abs_bound(r.origin.y - t.v0.y, t.e1.z as int, 0x10_0000, 0x10_0000);
    lemma_mul_abs_bound(r.origin.z - t.v0.z, t.e1.y as int, 0x10_0000, 0x10_0000);
    lemma_mul_abs_bound(r.origin.z - t.v0.z, t.e1.x as int, 0x10_0000, 0x10_0000);
    lemma_mul_abs_bound(r.origin.x - t.v0.x, t.e1.z as int, 0x10_0000, 0x10_0000);
    lemma_mul_abs_bound(r.origin.x - t.v0.x, t.e1.y as int, 0x10_0000, 0x10_0000);
    lemma_mul_abs_bound(r.origin.y - t.v0.y, t.e1.x as int, 0x10_0000, 0x10_0000);
    assert(-0x200_0000_0000 <= tri_qx(t, r) <= 0x200_0000_0000);
    assert(-0x200_0000_0000 <= tri_qy(t, r) <= 0x200_0000_0000);
    assert(-0x200_0000_0000 <= tri_qz(t, r) <= 0x200_0000_0000);
    lemma_mul_abs_bound(r.direction.x as int, tri_qx(t, r), 0x8_0000, 0x200_0000_0000);
    lemma_mul_abs_bound(r.direction.y as int, tri_qy(t, r), 0x8_0000, 0x200_0000_0000);
    lemma_mul_abs_bound(r.direction.z as int, tri_qz(t, r), 0x8_0000, 0x200_0000_0000);
    lemma_mul_abs_bound(t.e2.x as int, tri_qx(t, r), 0x10_0000, 0x200_0000_0000);
    lemma_mul_abs_bound(t.e2.y as int, tri_qy(t, r), 0x10_0000, 0x200_0000_0000);
    lemma_mul_abs_bound(t.e2.z as int, tri_qz(t, r), 0x10_0000, 0x200_0000_0000);
}

/// Cramer's rule consistency: the solved numerators reproduce the right-hand
/// side, `det * (origin - v0) == -t_num * direction + u_num * e1 + v_num * e2`
/// on every axis.
pub proof fn lemma_cramer(t: Triangle, r: Ray)
    requires
        t.wf(),
    ensures
        tri_det(t, r) * (r.origin.x - t.v0.x) == -tri_t_num(t, r) * (r.direction.x as int)
            + tri_u_num(t, r) * (t.e1.x as int) + tri_v_num(t, r) * (t.e2.x as int),
        tri_det(t, r) * (r.origin.y - t.v0.y) == -tri_t_num(t, r) * (r.direction.y as int)
            + tri_u_num(t, r) * (t.e1.y as int) + tri_v_num(t, r) * (t.e2.y as int),
        tri_det(t, r) * (r.origin.z - t.v0.z) == -tri_t_num(t, r) * (r.direction.z as int)
            + tri_u_num(t, r) * (t.e1.z as int) + tri_v_num(t, r) * (t.e2.z as int),
{
    let wx = r.origin.x - t.v0.x;
    let wy = r.origin.y - t.v0.y;
    let wz = r.origin.z - t.v0.z;
    let dx = r.direction.x as int;
    let dy = r.direction.y as int;
    let dz = r.direction.z as int;
    let ax = t.e1.x as int;
    let ay = t.e1.y as int;
    let az = t.e1.z as int;
    let bx = t.e2.x as int;
    let by = t.e2.y as int;
    let bz = t.e2.z as int;
    let px = tri_px(t, r);
    let py = tri_py(t, r);
    let pz = tri_pz(t, r);
    let qx = tri_qx(t, r);
    let qy = tri_qy(t, r);
    let qz = tri_qz(t, r);
    let det = tri_det(t, r);
    let un = tri_u_num(t, r);
    let vn = tri_v_num(t, r);
    let tn = tri_t_num(t, r);
    // Both sides of every axis reduce to the same balance identity,
    // instantiated with rotated components.
    lemma_balance(ax, ay, az, px, py, pz, wx, wy, wz);
    lemma_balance(ay, az, ax, py, pz, px, wy, wz, wx);
    lemma_balance(az, ax, ay, pz, px, py, wz, wx, wy);
    lemma_balance(dx, dy, dz, qx, qy, qz, bx, by, bz);
    lemma_balance(dy, dz, dx, qy, qz, qx, by, bz, bx);
    lemma_balance(dz, dx, dy, qz, qx, qy, bz, bx, by);
    assert((-tn) * dx == -(tn * dx) && (-tn) * dy == -(tn * dy) && (-tn) * dz == -(tn * dz))
        by (nonlinear_arith);
    assert(det * wx - un * ax == py * qz - pz * qy) by (nonlinear_arith)
        requires
            det == ax * px + ay * py + az * pz,
            un == wx * px + wy * py + wz * pz,
            qy == wz * ax - wx * az,
            qz == wx * ay - wy * ax,
            (ax * px + ay * py + az * pz) * wx - (wx * px + wy * py + wz * pz) * ax == py * (wx * ay
                - wy * ax) + pz * (wx * az - wz * ax),
    ;
    assert(vn * bx - tn * dx == py * qz - pz * qy) by (nonlinear_arith)
        requires
            tn == bx * qx + by * qy + bz * qz,
            vn == dx * qx + dy * qy + dz * qz,
            py == dz * bx - dx * bz,
            pz == dx * by - dy * bx,
            (dx * qx + dy * qy + dz * qz) * bx - (bx * qx + by * qy + bz * qz) * dx == qy * (bx * dy
                - by * dx) + qz * (bx * dz - bz * dx),
    ;
    assert(det * wy - un * ay == pz * qx - px * qz) by (nonlinear_arith)
        requires
            det == ay * py + az * pz + ax * px,
            un == wy * py + wz * pz + wx * px,
            qx == wy * az - wz * ay,
            qz == wx * ay - wy * ax,
            (ay * py + az * pz + ax * px) * wy - (wy * py + wz * pz + wx * px) * ay == pz * (wy * az
                - wz * ay) + px * (wy * ax - wx * ay),
    ;
    assert(vn * by - tn * dy == pz * qx - px * qz) by (nonlinear_arith)
        requires
            tn == by * qy + bz * qz + bx * qx,
            vn == dy * qy + dz * qz + dx * qx,
            px == dy * bz - dz * by,
            pz == dx * by - dy * bx,
            (dy * qy + dz * qz + dx * qx) * by - (by * qy + bz * qz + bx * qx) * dy == qz * (by * dz
                - bz * dy) + qx * (by * dx - bx * dy),
    ;
    assert(det * wz - un * az == px * qy - py * qx) by (nonlinear_arith)
        requires
            det == az * pz + ax * px + ay * py,
            un == wz * pz + wx * px + wy * py,
            qx == wy * az - wz * ay,
            qy == wz * ax - wx * az,
            (az * pz + ax * px + ay * py) * wz - (wz * pz + wx * px + wy * py) * az == px * (wz * ax
                - wx * az) + py * (wz * ay - wy * az),
    ;
    assert(vn * bz - tn * dz == px * qy - py * qx) by (nonlinear_arith)
        requires
            tn == bz * qz + bx * qx + by * qy,
            vn == dz * qz + dx * qx + dy * qy,
            px == dy * bz - dz * by,
            py == dz * bx - dx * bz,
            (dz * qz + dx * qx + dy * qy) * bz - (bz * qz + bx * qx + by * qy) * dz == qx * (bz * dx
                - bx * dz) + qy * (bz * dy - by * dz),
    ;
}

/// `(a . p) w1 - (w . p) a1 == p2 (a2 w1 - a1 w2) + p3 (a3 w1 - a1 w3)`:
/// the one ring identity behind Cramer consistency, on every axis and for
/// both coordinate groups.
proof fn lemma_balance(
    a1: int,
    a2: int,
    a3: int,
    p1: int,
    p2: int,
    p3: int,
    w1: int,
    w2: int,
    w3: int,
)
    ensures
        (a1 * p1 + a2 * p2 + a3 * p3) * w1 - (w1 * p1 + w2 * p2 + w3 * p3) * a1 == p2 * (w1 * a2
            - w2 * a1) + p3 * (w1 * a3 - w3 * a1),
{
    assert((a1 * p1 + a2 * p2 + a3 * p3) * w1 == a1 * p1 * w1 + a2 * p2 * w1 + a3 * p3 * w1)
        by (nonlinear_arith);
    assert((w1 * p1 + w2 * p2 + w3 * p3) * a1 == w1 * p1 * a1 + w2 * p2 * a1 + w3 * p3 * a1)
        by (nonlinear_arith);
    assert(p2 * (w1 * a2 - w2 * a1) == a2 * p2 * w1 - w2 * p2 * a1) by (nonlinear_arith);
    assert(p3 * (w1 * a3 - w3 * a1) == a3 * p3 * w1 - w3 * p3 * a1) by (nonlinear_arith);
    assert(a1 * p1 * w1 == w1 * p1 * a1) by (nonlinear_arith);
}

/// A convex combination with nonnegative weights stays between the extreme
/// values of its points.
proof fn lemma_convex_bound(
    c0: int,
    c1: int,
    c2: int,
    a0: int,
    a1: int,
    a2: int,
    mn: int,
    mx: int,
)
    requires
        c0 >= 0,
        c1 >= 0,
        c2 >= 0,
        mn <= a0 <= mx,
        mn <= a1 <= mx,
        mn <= a2 <= mx,
    ensures
        mn * (c0 + c1 + c2) <= c0 * a0 + c1 * a1 + c2 * a2,
        c0 * a0 + c1 * a1 + c2 * a2 <= mx * (c0 + c1 + c2),
{
    lemma_mul_le_mono(mn, a0, c0);
    lemma_mul_le_mono(mn, a1, c1);
    lemma_mul_le_mono(mn, a2, c2);
    lemma_mul_le_mono(a0, mx, c0);
    lemma_mul_le_mono(a1, mx, c1);
    lemma_mul_le_mono(a2, mx, c2);
    assert(mn * (c0 + c1 + c2) == mn * c0 + mn * c1 + mn * c2) by (nonlinear_arith);
    assert(mx * (c0 + c1 + c2) == mx * c0 + mx * c1 + mx * c2) by (nonlinear_arith);
    assert(mn * c0 == c0 * mn && mn * c1 == c1 * mn && mn * c2 == c2 * mn) by (nonlinear_arith);
    assert(mx * c0 == c0 * mx && mx * c1 == c1 * mx && mx * c2 == c2 * mx) by (nonlinear_arith);
    assert(a0 * c0 == c0 * a0 && a1 * c1 == c1 * a1 && a2 * c2 == c2 * a2) by (nonlinear_arith);
}

/// The exact ray point of a hit lies inside the triangle's bounding box:
/// the hit is the convex combination of the vertices with the barycentric
/// weights, cleared of the positive determinant.
pub proof fn lemma_hit_point_in_box(t: Triangle, r: Ray)
    requires
        t.wf(),
        tri_hits(t, r),
    ensures
        (t.bounding_box.min.x as int) * tri_det(t, r) <= on_axis_num(
            r.origin.x as int,
            r.direction.x as int,
            tri_t_num(t, r),
            tri_det(t, r),
        ) <= (t.bounding_box.max.x as int) * tri_det(t, r),
        (t.bounding_box.min.y as int) * tri_det(t, r) <= on_axis_num(
            r.origin.y as int,
            r.direction.y as int,
            tri_t_num(t, r),
            tri_det(t, r),
        ) <= (t.bounding_box.max.y as int) * tri_det(t, r),
        (t.bounding_box.min.z as int) * tri_det(t, r) <= on_axis_num(
            r.origin.z as int,
            r.direction.z as int,
            tri_t_num(t, r),
            tri_det(t, r),
        ) <= (t.bounding_box.max.z as int) * tri_det(t, r),
{
    lemma_cramer(t, r);
    let det = tri_det(t, r);
    let un = tri_u_num(t, r);
    let vn = tri_v_num(t, r);
    let tn = tri_t_num(t, r);
    lemma_hit_axis(
        det,
        un,
        vn,
        tn,
        r.origin.x as int,
        r.direction.x as int,
        t.v0.x as int,
        t.v1.x as int,
        t.v2.x as int,
        t.bounding_box.min.x as int,
        t.bounding_box.max.x as int,
        t.e1.x as int,
        t.e2.x as int,
    );
    lemma_hit_axis(
        det,
        un,
        vn,
        tn,
        r.origin.y as int,
        r.direction.y as int,
        t.v0.y as int,
        t.v1.y as int,
        t.v2.y as int,
        t.bounding_box.min.y as int,
        t.bounding_box.max.y as int,
        t.e1.y as int,
        t.e2.y as int,
    );
    lemma_hit_axis(
        det,
        un,
        vn,
        tn,
        r.origin.z as int,
        r.direction.z as int,
        t.v0.z as int,
        t.v1.z as int,
        t.v2.z as int,
        t.bounding_box.min.z as int,
        t.bounding_box.max.z as int,
        t.e1.z as int,
        t.e2.z as int,
    );
}

/// One axis of the convex-combination bound.
proof fn lemma_hit_axis(
    det: int,
    un: int,
    vn: int,
    tn: int,
    o: int,
    d: int,
    p0: int,
    p1: int,
    p2: int,
    mn: int,
    mx: int,
    a: int,
    b: int,
)
    requires
        det > 0,
        0 <= un,
        0 <= vn,
        un + vn <= det,
        a == p1 - p0,
        b == p2 - p0,
        mn == smin(smin(p0, p1), p2),
        mx == smax(smax(p0, p1), p2),
        det * (o - p0) == -tn * d + un * a + vn * b,
    ensures
        mn * det <= o * det + tn * d <= mx * det,
{
    // o * det + tn * d == (det - un - vn) * p0 + un * p1 + vn * p2
    assert(det * (o - p0) == det * o - det * p0) by (nonlinear_arith);
    assert(un * a == un * p1 - un * p0) by (nonlinear_arith)
        requires
            a == p1 - p0,
    ;
    assert(vn * b == vn * p2 - vn * p0) by (nonlinear_arith)
        requires
            b == p2 - p0,
    ;
    assert((det - un - vn) * p0 == det * p0 - un * p0 - vn * p0) by (nonlinear_arith);
    assert(o * det == det * o) by (nonlinear_arith);
    assert((-tn) * d == -(tn * d)) by (nonlinear_arith);
    assert(o * det + tn * d == (det - un - vn) * p0 + un * p1 + vn * p2);
    lemma_convex_bound(det - un - vn, un, vn, p0, p1, p2, mn, mx);
    assert(mn * (det - un - vn + un + vn) == mn * det && mx * (det - un - vn + un + vn) == mx * det)
        by (nonlinear_arith);
}

} // verus!
