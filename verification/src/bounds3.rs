//! Axis-aligned bounding boxes and the exact slab test.
//!
//! `intersect_p` decides, exactly, whether some rational parameter `t >= 0`
//! puts `origin + t * direction` inside the closed box. The classic slab
//! recurrence runs on exact rationals, so an axis-parallel ray needs no
//! reciprocal and no special value: an axis with zero direction component
//! passes when the origin lies within that slab and fails otherwise.

use vstd::prelude::*;

use crate::num::lemma_mul_abs_bound;
use crate::rat::{lemma_rle_trans, rle, Rat, RAT_LIMIT};
use crate::ray::{on_axis_num, Ray};
use crate::vec3::{bounded, in_world, smax, smin, Vec3, COORD_LIMIT};

verus! {

#[derive(Clone, Copy, PartialEq, Eq, Structural, Debug)]
pub enum Dimension {
    X,
    Y,
    Z,
}

#[derive(Clone, Copy, PartialEq, Eq, Structural, Debug)]
pub struct Bounds3 {
    pub min: Vec3,
    pub max: Vec3,
}

/// A cap larger than any feasible slab parameter `(2 * COORD_LIMIT) / 1`,
/// standing in for an unbounded far plane.
pub const FAR_CAP: i128 = 0x20_0000;

/// The slab constraint of one axis: `mn <= o + (tn/td) * d <= mx`, cleared
/// of the positive denominator `td`.
pub open spec fn axis_ok(o: int, d: int, mn: int, mx: int, tn: int, td: int) -> bool {
    &&& mn * td <= on_axis_num(o, d, tn, td)
    &&& on_axis_num(o, d, tn, td) <= mx * td
}

/// The ray parameter `tn/td` is nonnegative and puts the ray point inside
/// the closed box on every axis.
pub open spec fn hits_at(b: Bounds3, r: Ray, tn: int, td: int) -> bool {
    &&& 0 < td
    &&& 0 <= tn
    &&& axis_ok(r.origin.x as int, r.direction.x as int, b.min.x as int, b.max.x as int, tn, td)
    &&& axis_ok(r.origin.y as int, r.direction.y as int, b.min.y as int, b.max.y as int, tn, td)
    &&& axis_ok(r.origin.z as int, r.direction.z as int, b.min.z as int, b.max.z as int, tn, td)
}

/// Some rational parameter `t >= 0` reaches the box.
pub open spec fn ray_meets_box(b: Bounds3, r: Ray) -> bool {
    exists|tn: int, td: int| hits_at(b, r, tn, td)
}

/// Running parameter window of the slab recurrence.
struct Window {
    near: Rat,
    far: Rat,
}

/// `tn/td` lies within the window.
spec fn in_window(w: Window, tn: int, td: int) -> bool {
    &&& rle(w.near.num as int, w.near.den as int, tn, td)
    &&& rle(tn, td, w.far.num as int, w.far.den as int)
}

impl Window {
    spec fn wf(self) -> bool {
        &&& self.near.wf()
        &&& self.far.wf()
        &&& self.near.num >= 0
    }
}

/// Fold one axis into the window. Returns false only when the axis is
/// infeasible for every parameter (zero direction, origin outside the slab).
fn slab_axis(o: i64, d: i64, mn: i64, mx: i64, w: &mut Window) -> (ok: bool)
    requires
        old(w).wf(),
        -(COORD_LIMIT as int) <= o <= COORD_LIMIT as int,
        -(COORD_LIMIT as int) <= d <= COORD_LIMIT as int,
        -(COORD_LIMIT as int) <= mn <= COORD_LIMIT as int,
        -(COORD_LIMIT as int) <= mx <= COORD_LIMIT as int,
    ensures
        final(w).wf(),
        ok ==> forall|tn: int, td: int|
            0 < td ==> (#[trigger] in_window(*final(w), tn, td) <==> in_window(*old(w), tn, td)
                && axis_ok(o as int, d as int, mn as int, mx as int, tn, td)),
        !ok ==> forall|tn: int, td: int|
            0 < td ==> !#[trigger] axis_ok(o as int, d as int, mn as int, mx as int, tn, td),
        !ok ==> *final(w) == *old(w),
{
    if d == 0 {
        if o < mn || mx < o {
            proof {
                assert forall|tn: int, td: int| 0 < td implies !#[trigger] axis_ok(
                    o as int,
                    0,
                    mn as int,
                    mx as int,
                    tn,
                    td,
                ) by {
                    assert(on_axis_num(o as int, 0, tn, td) == o * td) by (nonlinear_arith);
                    if o < mn {
                        assert(!(mn * td <= o * td)) by (nonlinear_arith)
                            requires
                                o < mn,
                                0 < td,
                        ;
                    } else {
                        assert(!(o * td <= mx * td)) by (nonlinear_arith)
                            requires
                                mx < o,
                                0 < td,
                        ;
                    }
                }
            }
            return false;
        }
        proof {
            assert forall|tn: int, td: int| 0 < td implies (#[trigger] in_window(*w, tn, td)
                <==> in_window(*w, tn, td) && axis_ok(
                o as int,
                0,
                mn as int,
                mx as int,
                tn,
                td,
            )) by {
                assert(on_axis_num(o as int, 0, tn, td) == o * td) by (nonlinear_arith);
                assert(mn * td <= o * td && o * td <= mx * td) by (nonlinear_arith)
                    requires
                        mn <= o <= mx,
                        0 < td,
                ;
            }
        }
        return true;
    }
    // The axis interval as two rationals over a positive denominator.
    let (an, af) = if d > 0 {
        (Rat::new((mn as i128) - (o as i128), d as i128), Rat::new(
            (mx as i128) - (o as i128),
            d as i128,
        ))
    } else {
        (Rat::new((o as i128) - (mx as i128), -(d as i128)), Rat::new(
            (o as i128) - (mn as i128),
            -(d as i128),
        ))
    };
    proof {
        // The axis constraint is exactly the rational interval [an, af].
        assert forall|tn: int, td: int| 0 < td implies (axis_ok(
            o as int,
            d as int,
            mn as int,
            mx as int,
            tn,
            td,
        ) <==> rle(an.num as int, an.den as int, tn, td) && rle(
            tn,
            td,
            af.num as int,
            af.den as int,
        )) by {
            if d > 0 {
                assert((mn * td <= o * td + tn * d <==> (mn - o) * td <= tn * d) && (o * td + tn * d
                    <= mx * td <==> tn * d <= (mx - o) * td)) by (nonlinear_arith);
            } else {
                assert((mn * td <= o * td + tn * d <==> tn * -d <= (o - mn) * td) && (o * td + tn
                    * d <= mx * td <==> (o - mx) * td <= tn * -d)) by (nonlinear_arith);
            }
        }
    }
    let ghost prev = *w;
    if w.near.lt(an) {
        proof {
            // 0 <= near <= an, so the new near numerator stays nonnegative.
            assert(an.num >= 0) by (nonlinear_arith)
                requires
                    prev.near.num * an.den < an.num * prev.near.den,
                    prev.near.num >= 0,
                    0 < prev.near.den,
                    0 < an.den,
            ;
        }
        w.near = an;
    }
    if af.lt(w.far) {
        w.far = af;
    }
    proof {
        assert forall|tn: int, td: int| 0 < td implies (#[trigger] in_window(*w, tn, td)
            <==> in_window(prev, tn, td) && rle(an.num as int, an.den as int, tn, td) && rle(
            tn,
            td,
            af.num as int,
            af.den as int,
        )) by {
            let pn = prev.near.num as int;
            let pd = prev.near.den as int;
            let axn = an.num as int;
            let axd = an.den as int;
            let fn_ = prev.far.num as int;
            let fd = prev.far.den as int;
            let gn = af.num as int;
            let gd = af.den as int;
            // near side: tn/td >= max(prev.near, an) iff it exceeds both.
            if rle(pn, pd, axn, axd) && rle(axn, axd, tn, td) {
                lemma_rle_trans(pn, pd, axn, axd, tn, td);
            }
            if rle(axn, axd, pn, pd) && rle(pn, pd, tn, td) {
                lemma_rle_trans(axn, axd, pn, pd, tn, td);
            }
            // far side: tn/td <= min(prev.far, af) iff it is below both.
            if rle(tn, td, gn, gd) && rle(gn, gd, fn_, fd) {
                lemma_rle_trans(tn, td, gn, gd, fn_, fd);
            }
            if rle(tn, td, fn_, fd) && rle(fn_, fd, gn, gd) {
                lemma_rle_trans(tn, td, fn_, fd, gn, gd);
            }
        }
    }
    true
}

impl Bounds3 {
    /// Corners on the world grid, in componentwise order.
    pub open spec fn wf(self) -> bool {
        &&& in_world(self.min)
        &&& in_world(self.max)
        &&& self.min.x <= self.max.x
        &&& self.min.y <= self.max.y
        &&& self.min.z <= self.max.z
    }

    /// The degenerate box holding exactly one point.
    pub fn from_point(p: Vec3) -> (r: Bounds3)
        ensures
            r.min == p,
            r.max == p,
    {
        Bounds3 { min: p, max: p }
    }

    /// The smallest box holding two points, whichever corner order they
    /// arrive in.
    pub fn from_min_max(a: Vec3, b: Vec3) -> (r: Bounds3)
        ensures
            r.min.x == smin(a.x as int, b.x as int),
            r.min.y == smin(a.y as int, b.y as int),
            r.min.z == smin(a.z as int, b.z as int),
            r.max.x == smax(a.x as int, b.x as int),
            r.max.y == smax(a.y as int, b.y as int),
            r.max.z == smax(a.z as int, b.z as int),
            r.min.x <= r.max.x && r.min.y <= r.max.y && r.min.z <= r.max.z,
    {
        Bounds3 { min: a.min(b), max: a.max(b) }
    }

    /// The smallest box holding both boxes.
    pub fn union(&self, other: &Bounds3) -> (r: Bounds3)
        ensures
            r.min.x == smin(self.min.x as int, other.min.x as int),
            r.min.y == smin(self.min.y as int, other.min.y as int),
            r.min.z == smin(self.min.z as int, other.min.z as int),
            r.max.x == smax(self.max.x as int, other.max.x as int),
            r.max.y == smax(self.max.y as int, other.max.y as int),
            r.max.z == smax(self.max.z as int, other.max.z as int),
    {
        Bounds3 { min: self.min.min(other.min), max: self.max.max(other.max) }
    }

    /// The smallest box holding this box and the point.
    pub fn union_point(&self, p: Vec3) -> (r: Bounds3)
        ensures
            r.min.x == smin(self.min.x as int, p.x as int),
            r.min.y == smin(self.min.y as int, p.y as int),
            r.min.z == smin(self.min.z as int, p.z as int),
            r.max.x == smax(self.max.x as int, p.x as int),
            r.max.y == smax(self.max.y as int, p.y as int),
            r.max.z == smax(self.max.z as int, p.z as int),
    {
        Bounds3 { min: self.min.min(p), max: self.max.max(p) }
    }

    /// Twice the centroid: the corner sum, exact on the grid.
    pub fn centroid2(&self) -> (r: Vec3)
        requires
            in_world(self.min),
            in_world(self.max),
        ensures
            r.x == self.min.x + self.max.x,
            r.y == self.min.y + self.max.y,
            r.z == self.min.z + self.max.z,
    {
        self.min.add(self.max)
    }

    /// The axis along which the box extends farthest: X when strictly
    /// greatest, otherwise Y when its extent is at least Z's, otherwise Z.
    /// Accepts any box whose corners fit comfortably, such as the box of a
    /// centroid cloud.
    pub fn max_extent(&self) -> (r: Dimension)
        requires
            bounded(self.min, 2 * COORD_LIMIT as int),
            bounded(self.max, 2 * COORD_LIMIT as int),
        ensures
            r == spec_max_extent(*self),
    {
        let dx = self.max.x - self.min.x;
        let dy = self.max.y - self.min.y;
        let dz = self.max.z - self.min.z;
        if dx > dy && dx > dz {
            Dimension::X
        } else if dy >= dz {
            Dimension::Y
        } else {
            Dimension::Z
        }
    }

    /// Exact slab test: does any rational `t >= 0` land in the box?
    pub fn intersect_p(&self, ray: &Ray) -> (r: bool)
        requires
            self.wf(),
            ray.wf(),
        ensures
            r == ray_meets_box(*self, *ray),
    {
        let mut w = Window { near: Rat::from_int(0), far: Rat::new(FAR_CAP, 1) };
        let ghost w0 = w;
        let ok_x = slab_axis(ray.origin.x, ray.direction.x, self.min.x, self.max.x, &mut w);
        if !ok_x {
            proof {
                lemma_no_axis_no_hit_x(*self, *ray);
            }
            return false;
        }
        let ghost w1 = w;
        let ok_y = slab_axis(ray.origin.y, ray.direction.y, self.min.y, self.max.y, &mut w);
        if !ok_y {
            proof {
                lemma_no_axis_no_hit_y(*self, *ray);
            }
            return false;
        }
        let ghost w2 = w;
        let ok_z = slab_axis(ray.origin.z, ray.direction.z, self.min.z, self.max.z, &mut w);
        if !ok_z {
            proof {
                lemma_no_axis_no_hit_z(*self, *ray);
            }
            return false;
        }
        let nonempty = w.near.le(w.far);
        proof {
            let b = *self;
            let r = *ray;
            // The three window updates compose into one characterization.
            assert forall|tn: int, td: int| 0 < td implies (#[trigger] in_window(w, tn, td)
                <==> hits_at(b, r, tn, td) && rle(tn, td, FAR_CAP as int, 1)) by {
                assert(in_window(w0, tn, td) <==> (0 <= tn && rle(tn, td, FAR_CAP as int, 1)));
                assert(in_window(w1, tn, td) <==> in_window(w0, tn, td) && axis_ok(
                    r.origin.x as int,
                    r.direction.x as int,
                    b.min.x as int,
                    b.max.x as int,
                    tn,
                    td,
                ));
                assert(in_window(w2, tn, td) <==> in_window(w1, tn, td) && axis_ok(
                    r.origin.y as int,
                    r.direction.y as int,
                    b.min.y as int,
                    b.max.y as int,
                    tn,
                    td,
                ));
            }
            if nonempty {
                // The window's near edge is itself a witness parameter.
                let tn = w.near.num as int;
                let td = w.near.den as int;
                assert(rle(tn, td, tn, td));
                assert(in_window(w, tn, td));
                assert(hits_at(b, r, tn, td));
            } else {
                // Any hit would give a capped hit inside the window and
                // force near <= far, against the emptiness just computed.
                assert forall|tn: int, td: int| !#[trigger] hits_at(b, r, tn, td) by {
                    if hits_at(b, r, tn, td) {
                        let (tn2, td2) = lemma_capped_hit(b, r, tn, td);
                        assert(in_window(w, tn2, td2));
                        lemma_rle_trans(
                            w.near.num as int,
                            w.near.den as int,
                            tn2,
                            td2,
                            w.far.num as int,
                            w.far.den as int,
                        );
                    }
                }
            }
        }
        nonempty
    }
}

/// The deterministic tie-breaking of `max_extent`.
pub open spec fn spec_max_extent(b: Bounds3) -> Dimension {
    let dx = b.max.x - b.min.x;
    let dy = b.max.y - b.min.y;
    let dz = b.max.z - b.min.z;
    if dx > dy && dx > dz {
        Dimension::X
    } else if dy >= dz {
        Dimension::Y
    } else {
        Dimension::Z
    }
}

proof fn lemma_no_axis_no_hit_x(b: Bounds3, r: Ray)
    requires
        forall|tn: int, td: int|
            0 < td ==> !#[trigger] axis_ok(
                r.origin.x as int,
                r.direction.x as int,
                b.min.x as int,
                b.max.x as int,
                tn,
                td,
            ),
    ensures
        !ray_meets_box(b, r),
{
}

proof fn lemma_no_axis_no_hit_y(b: Bounds3, r: Ray)
    requires
        forall|tn: int, td: int|
            0 < td ==> !#[trigger] axis_ok(
                r.origin.y as int,
                r.direction.y as int,
                b.min.y as int,
                b.max.y as int,
                tn,
                td,
            ),
    ensures
        !ray_meets_box(b, r),
{
}

proof fn lemma_no_axis_no_hit_z(b: Bounds3, r: Ray)
    requires
        forall|tn: int, td: int|
            0 < td ==> !#[trigger] axis_ok(
                r.origin.z as int,
                r.direction.z as int,
                b.min.z as int,
                b.max.z as int,
                tn,
                td,
            ),
    ensures
        !ray_meets_box(b, r),
{
}

/// One axis with a nonzero direction component caps any feasible parameter
/// below `FAR_CAP`.
proof fn lemma_axis_cap(o: int, d: int, mn: int, mx: int, tn: int, td: int)
    requires
        d != 0,
        0 < td,
        0 <= tn,
        axis_ok(o, d, mn, mx, tn, td),
        -(COORD_LIMIT as int) <= o <= COORD_LIMIT as int,
        -(COORD_LIMIT as int) <= mn <= COORD_LIMIT as int,
        -(COORD_LIMIT as int) <= mx <= COORD_LIMIT as int,
    ensures
        rle(tn, td, FAR_CAP as int, 1),
{
    let cl = COORD_LIMIT as int;
    if d > 0 {
        assert(tn * 1 <= (FAR_CAP as int) * td) by (nonlinear_arith)
            requires
                0 < td,
                0 <= tn,
                1 <= d,
                o * td + tn * d <= mx * td,
                -cl <= o,
                mx <= cl,
                FAR_CAP as int >= 2 * cl,
        ;
    } else {
        assert(tn * 1 <= (FAR_CAP as int) * td) by (nonlinear_arith)
            requires
                0 < td,
                0 <= tn,
                d <= -1,
                mn * td <= o * td + tn * d,
                o <= cl,
                -cl <= mn,
                FAR_CAP as int >= 2 * cl,
        ;
    }
}

/// Every hit on a world-cube box yields a hit whose parameter obeys the
/// `FAR_CAP` bound: the parameter itself when some direction component is
/// nonzero, otherwise the parameter zero.
proof fn lemma_capped_hit(b: Bounds3, r: Ray, tn: int, td: int) -> (res: (int, int))
    requires
        b.wf(),
        r.wf(),
        hits_at(b, r, tn, td),
    ensures
        hits_at(b, r, res.0, res.1),
        rle(res.0, res.1, FAR_CAP as int, 1),
{
    if r.direction.x != 0 {
        lemma_axis_cap(
            r.origin.x as int,
            r.direction.x as int,
            b.min.x as int,
            b.max.x as int,
            tn,
            td,
        );
        (tn, td)
    } else if r.direction.y != 0 {
        lemma_axis_cap(
            r.origin.y as int,
            r.direction.y as int,
            b.min.y as int,
            b.max.y as int,
            tn,
            td,
        );
        (tn, td)
    } else if r.direction.z != 0 {
        lemma_axis_cap(
            r.origin.z as int,
            r.direction.z as int,
            b.min.z as int,
            b.max.z as int,
            tn,
            td,
        );
        (tn, td)
    } else {
        // A ray that goes nowhere: the axis constraints are independent of
        // the parameter, so zero serves.
        assert(hits_at(b, r, 0, 1)) by {
            lemma_zero_dir_axis(r.origin.x as int, b.min.x as int, b.max.x as int, tn, td);
            lemma_zero_dir_axis(r.origin.y as int, b.min.y as int, b.max.y as int, tn, td);
            lemma_zero_dir_axis(r.origin.z as int, b.min.z as int, b.max.z as int, tn, td);
        }
        (0, 1)
    }
}

/// With a zero direction component, the slab constraint at any parameter
/// pins the origin inside the slab, hence holds at parameter zero too.
proof fn lemma_zero_dir_axis(o: int, mn: int, mx: int, tn: int, td: int)
    requires
        0 < td,
        axis_ok(o, 0, mn, mx, tn, td),
    ensures
        axis_ok(o, 0, mn, mx, 0, 1),
{
    assert(mn <= o && o <= mx) by (nonlinear_arith)
        requires
            0 < td,
            mn * td <= o * td + tn * 0,
            o * td + tn * 0 <= mx * td,
    ;
}

} // verus!
