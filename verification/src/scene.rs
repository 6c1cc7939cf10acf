//! The scene: the primitive set, its aggregate hierarchy, light sampling,
//! and the recursive path-tracing estimator.
//!
//! The aggregate hierarchy indexes every triangle of every object in one
//! shared arena — the mesh-local hierarchies and the scene-level structure
//! reference the same triangle data — so the nearest-hit contract of
//! `intersect` speaks about all triangles of all objects at once.

use vstd::prelude::*;

use crate::bvh::{all_idxs, is_closest_hit, tris_wf, BVHAccel};
use crate::color::{color_add, color_div, color_mul, color_scale, sat, sfx_div, sfx_mul, CMAX};
use crate::intersection::{Intersection, SampleResult};
use crate::material::{spec_has_emission, Material};
use crate::num::{div_trunc, lemma_mul_abs_bound, sdiv_trunc};
use crate::object::Object;
use crate::rat::Rat;
use crate::ray::Ray;
use crate::rng::{spec_next, Rng};
use crate::triangle::Triangle;
use crate::vec3::{bounded, in_world, sdot, Vec3, SCALE};

verus! {

/// All triangles of all objects, in object order.
pub open spec fn scene_tris(objs: Seq<Object>) -> Seq<Triangle>
    decreases objs.len(),
{
    if objs.len() == 0 {
        Seq::empty()
    } else {
        scene_tris(objs.drop_last()) + objs.last().tris()
    }
}

/// The index of the emissive object whose area interval holds the residual
/// threshold `p`, walking from position `k`; `-1` when the threshold
/// overruns the remaining emissive area.
pub open spec fn pick_light_from(objs: Seq<Object>, k: int, p: int) -> int
    decreases objs.len() - k,
{
    if k < 0 || k >= objs.len() {
        -1
    } else if spec_has_emission(objs[k].material()) && p < objs[k].spec_area2() {
        k
    } else if spec_has_emission(objs[k].material()) {
        pick_light_from(objs, k + 1, p - objs[k].spec_area2())
    } else {
        pick_light_from(objs, k + 1, p)
    }
}

/// The residual threshold handed to the selected object, mirroring
/// `pick_light_from`; meaningful only where that walk selects an object.
pub open spec fn pick_light_rem(objs: Seq<Object>, k: int, p: int) -> int
    decreases objs.len() - k,
{
    if k < 0 || k >= objs.len() {
        p
    } else if spec_has_emission(objs[k].material()) && p < objs[k].spec_area2() {
        p
    } else if spec_has_emission(objs[k].material()) {
        pick_light_rem(objs, k + 1, p - objs[k].spec_area2())
    } else {
        pick_light_rem(objs, k + 1, p)
    }
}

/// Summed doubled area of the emissive objects from position `k` on.
pub open spec fn emit_from(objs: Seq<Object>, k: int) -> int
    decreases objs.len() - k,
{
    if k < 0 || k >= objs.len() {
        0
    } else {
        (if spec_has_emission(objs[k].material()) {
            objs[k].spec_area2()
        } else {
            0
        }) + emit_from(objs, k + 1)
    }
}

/// Triangle count of the objects from position `k` on.
pub open spec fn tris_from(objs: Seq<Object>, k: int) -> int
    decreases objs.len() - k,
{
    if k < 0 || k >= objs.len() {
        0
    } else {
        objs[k].tris().len() + tris_from(objs, k + 1)
    }
}

/// With well-formed objects the remaining emissive area is nonnegative and
/// bounded by the per-triangle cap times the remaining triangle count.
proof fn lemma_emit_from_bounds(objs: Seq<Object>, k: int)
    requires
        forall|j: int| 0 <= j < objs.len() ==> (#[trigger] objs[j]).wf(),
    ensures
        0 <= emit_from(objs, k),
        emit_from(objs, k) <= (crate::triangle::AREA2_LIMIT as int) * tris_from(objs, k),
        0 <= tris_from(objs, k),
    decreases objs.len() - k,
{
    let a = crate::triangle::AREA2_LIMIT as int;
    if 0 <= k < objs.len() {
        lemma_emit_from_bounds(objs, k + 1);
        crate::object::lemma_object_area_bound(objs[k]);
        assert(a * objs[k].tris().len() + a * tris_from(objs, k + 1) == a * (objs[k].tris().len()
            + tris_from(objs, k + 1))) by (nonlinear_arith);
        assert(0 <= a * objs[k].tris().len()) by (nonlinear_arith)
            requires
                0 < a,
                0 <= objs[k].tris().len(),
        ;
    }
}

/// The objects' triangle counts sum to the flattened arena's length.
proof fn lemma_tris_from_is_scene_len(objs: Seq<Object>)
    ensures
        tris_from(objs, 0) == scene_tris(objs).len(),
    decreases objs.len(),
{
    if objs.len() > 0 {
        lemma_tris_from_is_scene_len(objs.drop_last());
        lemma_tris_from_drop_last(objs, 0);
    }
}

/// Dropping the last object drops exactly its triangle count from any
/// suffix sum that still reaches it.
proof fn lemma_tris_from_drop_last(objs: Seq<Object>, k: int)
    requires
        objs.len() > 0,
        0 <= k <= objs.len() - 1,
    ensures
        tris_from(objs, k) == tris_from(objs.drop_last(), k) + objs.last().tris().len(),
    decreases objs.len() - k,
{
    assert(objs.drop_last().len() == objs.len() - 1);
    if k < objs.len() - 1 {
        assert(objs.drop_last()[k] == objs[k]);
        lemma_tris_from_drop_last(objs, k + 1);
        assert(tris_from(objs, k) == objs[k].tris().len() + tris_from(objs, k + 1));
        assert(tris_from(objs.drop_last(), k) == objs.drop_last()[k].tris().len() + tris_from(
            objs.drop_last(),
            k + 1,
        ));
    } else {
        assert(objs.last() == objs[objs.len() - 1]);
        assert(tris_from(objs, k) == objs[k].tris().len() + tris_from(objs, k + 1));
        assert(tris_from(objs, k + 1) == 0);
        assert(tris_from(objs.drop_last(), k) == 0);
    }
}

/// The total emissive area fits a rational denominator once the flattened
/// arena holds at most 2^19 triangles.
proof fn lemma_emit_total_fits(objs: Seq<Object>)
    requires
        forall|j: int| 0 <= j < objs.len() ==> (#[trigger] objs[j]).wf(),
        scene_tris(objs).len() <= 0x8_0000,
    ensures
        0 <= emit_from(objs, 0) <= 0x8000_0000_0000_0000,
{
    lemma_emit_from_bounds(objs, 0);
    lemma_tris_from_is_scene_len(objs);
    assert((crate::triangle::AREA2_LIMIT as int) * tris_from(objs, 0) <= 0x8000_0000_0000_0000)
        by (nonlinear_arith)
        requires
            0 <= tris_from(objs, 0) <= 0x8_0000,
            crate::triangle::AREA2_LIMIT == 0x1000_0000_0000i64,
    ;
}

/// The walk selects an object exactly when the threshold falls short of
/// the remaining emissive area.
proof fn lemma_pick_light_iff(objs: Seq<Object>, k: int, p: int)
    requires
        forall|j: int| 0 <= j < objs.len() ==> (#[trigger] objs[j]).wf(),
        0 <= p,
    ensures
        (pick_light_from(objs, k, p) >= 0) == (p < emit_from(objs, k)),
    decreases objs.len() - k,
{
    if 0 <= k < objs.len() {
        crate::object::lemma_object_area_bound(objs[k]);
        lemma_emit_from_bounds(objs, k + 1);
        if spec_has_emission(objs[k].material()) && p < objs[k].spec_area2() {
        } else if spec_has_emission(objs[k].material()) {
            lemma_pick_light_iff(objs, k + 1, p - objs[k].spec_area2());
        } else {
            lemma_pick_light_iff(objs, k + 1, p);
        }
    }
}

/// The drawn threshold is nonnegative, equals the spec-level threshold of
/// the drawing state, and falls short of the total exactly when there is
/// any total to fall short of.
proof fn lemma_light_threshold(objs: Seq<Object>, total: int, z: int, p: int)
    requires
        total == emit_from(objs, 0),
        0 <= total,
        0 <= z <= 255,
        p == sdiv_trunc(total * z, 256),
    ensures
        0 <= p,
        (p < total) == (total > 0),
{
    assert(0 <= total * z) by (nonlinear_arith)
        requires
            0 <= total,
            0 <= z,
    ;
    vstd::arithmetic::div_mod::lemma_div_pos_is_pos(total * z, 256);
    if total > 0 {
        assert(total * z <= total * 255) by (nonlinear_arith)
            requires
                0 <= z <= 255,
                0 <= total,
        ;
        assert(total * 255 < total * 256) by (nonlinear_arith)
            requires
                total > 0,
        ;
        crate::num::lemma_div_lt(total * z, 256, total);
    } else {
        assert(total * z == 0) by (nonlinear_arith)
            requires
                total == 0,
        ;
    }
}

/// The unit value a generator state yields: its top byte, in `[0, SCALE)`.
pub open spec fn draw(s: u64) -> int {
    (s >> 56) as int
}

/// The area threshold one unit draw spreads over the total emissive area.
#[verifier::opaque]
pub open spec fn spec_light_threshold(objs: Seq<Object>, s1: u64) -> int {
    sdiv_trunc(emit_from(objs, 0) * draw(s1), 256)
}

/// The value `sample_light_with` computes: the walk-selected emissive
/// object's sample at the residual threshold, with the density
/// renormalized to the union of all emissive surfaces.
#[verifier::opaque]
pub open spec fn spec_sample_light(objs: Seq<Object>, p: int, z1: int, z2: int) -> Option<
    SampleResult,
> {
    let k = pick_light_from(objs, 0, p);
    if k < 0 {
        None
    } else {
        let t = crate::object::spec_object_sample(objs[k], pick_light_rem(objs, 0, p), z1, z2);
        Some(
            SampleResult {
                coords: t.coords,
                normal: t.normal,
                pdf: Rat { num: 131072, den: emit_from(objs, 0) as i128 },
            },
        )
    }
}

/// A componentwise nonnegative radiance value.
pub open spec fn color_nonneg(v: Vec3) -> bool {
    &&& 0 <= v.x
    &&& 0 <= v.y
    &&& 0 <= v.z
}

/// Physically valid material data: emission and albedo never negative.
pub open spec fn mat_nonneg(m: Material) -> bool {
    &&& 0 <= m.m_emission.x && 0 <= m.m_emission.y && 0 <= m.m_emission.z
    &&& 0 <= m.kd.x && 0 <= m.kd.y && 0 <= m.kd.z
}

/// Every triangle of the arena carries physically valid material data.
pub open spec fn tris_mats_nonneg(tris: Seq<Triangle>) -> bool {
    forall|k: int| 0 <= k < tris.len() ==> mat_nonneg((#[trigger] tris[k]).m)
}

/// A radiance value within the saturation range.
pub open spec fn color_ok(v: Vec3) -> bool {
    &&& -(CMAX as int) <= v.x <= CMAX as int
    &&& -(CMAX as int) <= v.y <= CMAX as int
    &&& -(CMAX as int) <= v.z <= CMAX as int
}

pub struct Scene {
    pub objects: Vec<Object>,
    pub width: usize,
    pub height: usize,
    /// Vertical field of view in degrees, fixed point.
    pub fov: i64,
    pub background_color: Vec3,
    /// Defensive cap on the path recursion depth.
    pub max_depth: u32,
    /// Continuation probability of the roulette, fixed point in `(0, SCALE]`.
    pub russian_roulette: i64,
    pub bvh: Option<BVHAccel>,
}

impl Scene {
    pub open spec fn objects_wf(self) -> bool {
        forall|k: int| 0 <= k < self.objects@.len() ==> (#[trigger] self.objects@[k]).wf()
    }

    /// The aggregate hierarchy, when present, indexes exactly the scene's
    /// triangles.
    pub open spec fn wf(self) -> bool {
        &&& self.objects_wf()
        &&& 0 < self.russian_roulette <= SCALE
        &&& match self.bvh {
            Option::None => true,
            Option::Some(b) => b.wf() && b.objects@ == scene_tris(self.objects@),
        }
    }

    pub fn new(w: usize, h: usize) -> (r: Scene)
        ensures
            r.objects@.len() == 0,
            r.width == w,
            r.height == h,
            r.fov == 40 * SCALE,
            r.background_color == (Vec3 { x: 60, y: 173, z: 216 }),
            r.bvh is None,
            r.russian_roulette == 205,
            r.max_depth == 64,
            r.wf(),
    {
        Scene {
            objects: Vec::new(),
            width: w,
            height: h,
            fov: 40 * SCALE,
            background_color: Vec3 { x: 60, y: 173, z: 216 },
            max_depth: 64,
            russian_roulette: 205,
            bvh: None,
        }
    }

    /// Add an object; the aggregate hierarchy is dropped until the next
    /// build, since the geometry changed.
    pub fn add_object(&mut self, object: Object)
        requires
            object.wf(),
            old(self).wf(),
        ensures
            final(self).objects@ == old(self).objects@.push(object),
            final(self).bvh is None,
            final(self).wf(),
            final(self).width == old(self).width,
            final(self).height == old(self).height,
            final(self).fov == old(self).fov,
            final(self).background_color == old(self).background_color,
            final(self).russian_roulette == old(self).russian_roulette,
            final(self).max_depth == old(self).max_depth,
    {
        self.objects.push(object);
        self.bvh = None;
    }

    /// Build the aggregate hierarchy over every triangle of every object.
    pub fn build_bvh(&mut self)
        requires
            old(self).wf(),
        ensures
            final(self).objects@ == old(self).objects@,
            final(self).bvh is Some,
            final(self).wf(),
            final(self).width == old(self).width,
            final(self).height == old(self).height,
            final(self).fov == old(self).fov,
            final(self).background_color == old(self).background_color,
            final(self).russian_roulette == old(self).russian_roulette,
            final(self).max_depth == old(self).max_depth,
    {
        let mut tris: Vec<Triangle> = Vec::new();
        let n = self.objects.len();
        let mut i: usize = 0;
        while i < n
            invariant
                0 <= i <= n,
                n == self.objects@.len(),
                self.objects_wf(),
                tris@ == scene_tris(self.objects@.subrange(0, i as int)),
                tris_wf(tris@),
            decreases n - i,
        {
            let ghost pre = tris@;
            match &self.objects[i] {
                Object::Tri(t) => {
                    tris.push(*t);
                },
                Object::Mesh(m) => {
                    let mt = m.bvh.objects.len();
                    let mut j: usize = 0;
                    while j < mt
                        invariant
                            0 <= j <= mt,
                            i < self.objects@.len(),
                            self.objects@[i as int] matches Object::Mesh(mm) && mm == m && mt
                                == m.tris().len(),
                            m.wf(),
                            tris@ == pre + m.tris().subrange(0, j as int),
                            tris_wf(tris@),
                        decreases mt - j,
                    {
                        tris.push(m.bvh.objects[j]);
                        proof {
                            assert(m.tris().subrange(0, j + 1) =~= m.tris().subrange(0, j as int)
                                + seq![m.tris()[j as int]]);
                            assert(tris@ =~= pre + m.tris().subrange(0, j + 1));
                        }
                        j = j + 1;
                    }
                    proof {
                        assert(m.tris().subrange(0, mt as int) =~= m.tris());
                    }
                },
            }
            proof {
                let so = self.objects@;
                assert(so.subrange(0, i + 1).drop_last() =~= so.subrange(0, i as int));
                assert(so.subrange(0, i + 1).last() == so[i as int]);
                match so[i as int] {
                    Object::Tri(t) => {
                        assert(tris@ =~= pre + so[i as int].tris());
                    },
                    Object::Mesh(m) => {
                    },
                }
                assert(tris@ =~= scene_tris(so.subrange(0, i + 1)));
            }
            i = i + 1;
        }
        proof {
            assert(self.objects@.subrange(0, n as int) =~= self.objects@);
        }
        let accel = BVHAccel::new(tris);
        self.bvh = Some(accel);
    }

    /// Summed doubled area of the emissive objects.
    pub fn emit_area2(&self) -> (r: i128)
        requires
            self.objects_wf(),
            scene_tris(self.objects@).len() <= 0x8_0000,
        ensures
            r == emit_from(self.objects@, 0),
            0 <= r <= 0x8000_0000_0000_0000,
    {
        proof {
            lemma_emit_total_fits(self.objects@);
        }
        let n = self.objects.len();
        let mut acc: i128 = 0;
        let mut k: usize = 0;
        while k < n
            invariant
                0 <= k <= n,
                n == self.objects@.len(),
                self.objects_wf(),
                0 <= acc,
                acc + emit_from(self.objects@, k as int) == emit_from(self.objects@, 0),
                0 <= emit_from(self.objects@, 0) <= 0x8000_0000_0000_0000,
            decreases n - k,
        {
            proof {
                lemma_emit_from_bounds(self.objects@, k as int);
                lemma_emit_from_bounds(self.objects@, k + 1);
            }
            let o = &self.objects[k];
            if o.has_emit() {
                let a = o.area2();
                acc = acc + a;
            }
            k = k + 1;
        }
        acc
    }

    /// Choose a point on an emissive surface for the given area threshold
    /// and unit draws: walk the object list accumulating emissive area and
    /// sample the object whose interval holds the threshold; the returned
    /// density is with respect to the union of all emissive surfaces,
    /// exactly `1 / total_emissive_area`. `None` exactly when the threshold
    /// overruns the total emissive area — in particular when the scene has
    /// no emissive surface at all.
    pub fn sample_light_with(&self, p: i128, z1: i64, z2: i64) -> (r: Option<SampleResult>)
        requires
            self.objects_wf(),
            scene_tris(self.objects@).len() <= 0x8_0000,
            0 <= p,
            0 <= z1 < SCALE,
            0 <= z2 < SCALE,
        ensures
            r == spec_sample_light(self.objects@, p as int, z1 as int, z2 as int),
            (r is Some) == (pick_light_from(self.objects@, 0, p as int) >= 0),
            (r is Some) == (p < emit_from(self.objects@, 0)),
            r matches Some(s) ==> ({
                let k = pick_light_from(self.objects@, 0, p as int);
                &&& 0 <= k < self.objects@.len()
                &&& spec_has_emission(self.objects@[k].material())
                &&& s.pdf.num == 131072
                &&& s.pdf.den == emit_from(self.objects@, 0)
                &&& s.pdf.wf()
                &&& in_world(s.coords)
                &&& exists|j: int|
                    0 <= j < self.objects@[k].tris().len()
                        && crate::triangle::sample_point_matches(
                        #[trigger] self.objects@[k].tris()[j],
                        z1 as int,
                        z2 as int,
                        s.coords,
                        s.normal,
                    ) && self.objects@[k].tris()[j].m == self.objects@[k].material()
            }),
    {
        proof {
            reveal(spec_sample_light);
            lemma_emit_total_fits(self.objects@);
            lemma_pick_light_iff(self.objects@, 0, p as int);
        }
        let total = self.emit_area2();
        let n = self.objects.len();
        let mut k: usize = 0;
        let mut rem: i128 = p;
        while k < n
            invariant
                0 <= k <= n,
                n == self.objects@.len(),
                self.objects_wf(),
                0 <= rem <= p,
                0 <= z1 < SCALE,
                0 <= z2 < SCALE,
                total == emit_from(self.objects@, 0),
                0 <= total <= 0x8000_0000_0000_0000,
                emit_from(self.objects@, 0) - emit_from(self.objects@, k as int) == p - rem,
                pick_light_from(self.objects@, 0, p as int) == pick_light_from(
                    self.objects@,
                    k as int,
                    rem as int,
                ),
                pick_light_rem(self.objects@, 0, p as int) == pick_light_rem(
                    self.objects@,
                    k as int,
                    rem as int,
                ),
            decreases n - k,
        {
            proof {
                lemma_emit_from_bounds(self.objects@, k + 1);
            }
            let o = &self.objects[k];
            if o.has_emit() {
                let a = o.area2();
                if rem < a {
                    let s0 = o.sample_with(rem, z1, z2);
                    let s = SampleResult {
                        coords: s0.coords,
                        normal: s0.normal,
                        pdf: Rat::new(131072, total),
                    };
                    proof {
                        reveal(spec_sample_light);
                    }
                    return Some(s);
                }
                rem = rem - a;
            }
            k = k + 1;
        }
        proof {
            reveal(spec_sample_light);
        }
        None
    }

    /// Draw a light sample with the generator: one draw sets the area
    /// threshold over the total emissive area, two more place the point.
    /// A sample is returned exactly when the scene holds emissive area at
    /// all; it lies on an emissive object and carries the exact density
    /// `1 / total_emissive_area`.
    #[verifier::rlimit(100)]
    pub fn sample_light(&self, rng: &mut Rng) -> (r: Option<SampleResult>)
        requires
            self.objects_wf(),
            scene_tris(self.objects@).len() <= 0x8_0000,
        ensures
            final(rng).state == spec_next(spec_next(spec_next(old(rng).state))),
            r == spec_sample_light(
                self.objects@,
                spec_light_threshold(self.objects@, spec_next(old(rng).state)),
                draw(spec_next(spec_next(old(rng).state))),
                draw(spec_next(spec_next(spec_next(old(rng).state)))),
            ),
            (r is Some) == (emit_from(self.objects@, 0) > 0),
            r matches Some(s) ==> (exists|k: int|
                0 <= k < self.objects@.len() && spec_has_emission(
                    (#[trigger] self.objects@[k]).material(),
                )) && s.pdf.num == 131072 && s.pdf.den == emit_from(self.objects@, 0)
                && s.pdf.wf() && in_world(s.coords),
    {
        let p = self.draw_light_threshold(rng);
        let z1 = rng.next_unit();
        let z2 = rng.next_unit();
        self.sample_light_with(p, z1, z2)
    }

    /// The outgoing radiance along the ray, one light sample and one
    /// scattered sample per bounce, roulette-terminated, with the defensive
    /// depth cap.
    ///
    /// The whole computation, and the generator state it leaves behind,
    /// are pinned by `spec_cast_ray`. Highlighted cases: a ray that misses
    /// everything returns black; a ray whose nearest hit is emissive
    /// returns `emission * (wo . n)` (cosine clamped at zero against
    /// grazing-angle rounding) for a camera ray, and black for an indirect
    /// ray — the direct-light sum at the previous vertex already accounted
    /// for that emission, so counting it again would double it. With
    /// nonnegative scene materials the radiance never goes negative.
    pub fn cast_ray(&self, ray: &Ray, from_camera: bool, rng: &mut Rng) -> (r: Vec3)
        requires
            self.wf(),
            self.bvh is Some,
            ray.wf(),
            scene_tris(self.objects@).len() <= 0x8_0000,
            1 <= self.max_depth,
        ensures
            is_closest_hit(
                scene_tris(self.objects@),
                all_idxs(scene_tris(self.objects@).len() as int),
                *ray,
                Option::<Intersection>::None,
            ) ==> r == (Vec3 { x: 0, y: 0, z: 0 }),
            (exists|h: Intersection|
                is_closest_hit(
                    scene_tris(self.objects@),
                    all_idxs(scene_tris(self.objects@).len() as int),
                    *ray,
                    Some(h),
                )) ==> (exists|h: Intersection|
                is_closest_hit(
                    scene_tris(self.objects@),
                    all_idxs(scene_tris(self.objects@).len() as int),
                    *ray,
                    Some(h),
                ) && spec_hit_shade(*ray, from_camera, h, r)),
            r == spec_cast_ray(*self, *ray, from_camera, old(rng).state, self.max_depth).0,
            final(rng).state == spec_cast_ray(
                *self,
                *ray,
                from_camera,
                old(rng).state,
                self.max_depth,
            ).1,
            color_ok(r),
            tris_mats_nonneg(scene_tris(self.objects@)) ==> color_nonneg(r),
    {
        let depth = self.max_depth;
        self.cast_ray_depth(ray, from_camera, rng, depth)
    }

    fn cast_ray_depth(&self, ray: &Ray, from_camera: bool, rng: &mut Rng, depth: u32) -> (r: Vec3)
        requires
            self.wf(),
            self.bvh is Some,
            ray.wf(),
            scene_tris(self.objects@).len() <= 0x8_0000,
        ensures
            depth == 0 ==> r == (Vec3 { x: 0, y: 0, z: 0 }),
            depth > 0 ==> (is_closest_hit(
                scene_tris(self.objects@),
                all_idxs(scene_tris(self.objects@).len() as int),
                *ray,
                Option::<Intersection>::None,
            ) ==> r == (Vec3 { x: 0, y: 0, z: 0 })),
            depth > 0 ==> ((exists|h: Intersection|
                is_closest_hit(
                    scene_tris(self.objects@),
                    all_idxs(scene_tris(self.objects@).len() as int),
                    *ray,
                    Some(h),
                )) ==> (exists|h: Intersection|
                is_closest_hit(
                    scene_tris(self.objects@),
                    all_idxs(scene_tris(self.objects@).len() as int),
                    *ray,
                    Some(h),
                ) && spec_hit_shade(*ray, from_camera, h, r))),
            r == spec_cast_ray(*self, *ray, from_camera, old(rng).state, depth).0,
            final(rng).state == spec_cast_ray(*self, *ray, from_camera, old(rng).state, depth).1,
            color_ok(r),
            tris_mats_nonneg(scene_tris(self.objects@)) ==> color_nonneg(r),
        decreases depth,
    {
        if depth == 0 {
            proof {
                reveal(spec_cast_ray);
            }
            return Vec3 { x: 0, y: 0, z: 0 };
        }
        let ghost ts = scene_tris(self.objects@);
        let ghost all = all_idxs(scene_tris(self.objects@).len() as int);
        let hit = match self.intersect(ray) {
            None => {
                proof {
                    if exists|h: Intersection| is_closest_hit(ts, all, *ray, Some(h)) {
                        let h = choose|h: Intersection| is_closest_hit(ts, all, *ray, Some(h));
                        let k = choose|k: int|
                            0 <= k < all.len() && crate::triangle::tri_hits(
                                ts[#[trigger] all[k] as int],
                                *ray,
                            ) && crate::triangle::hit_matches(ts[all[k] as int], *ray, h);
                        assert(!crate::triangle::tri_hits(ts[all[k] as int], *ray));
                    }
                    reveal(spec_cast_ray);
                }
                return Vec3 { x: 0, y: 0, z: 0 };
            },
            Some(h) => h,
        };
        let n = hit.normal;
        proof {
            // the hit record carries a stored triangle's normal and
            // material, so the normal is a fixed-point unit vector and the
            // material is one of the scene's
            let k = choose|k: int|
                0 <= k < all.len() && crate::triangle::tri_hits(ts[#[trigger] all[k] as int], *ray)
                    && crate::triangle::hit_matches(ts[all[k] as int], *ray, hit);
            assert(self.bvh->Some_0.wf());
            assert(ts[all[k] as int].wf());
            assert(tris_mats_nonneg(ts) ==> mat_nonneg(hit.m));
        }
        let wo = ray.direction.neg();
        if hit.m.has_emission() {
            if from_camera {
                let c = emit_shade(hit.m.m_emission, ray, n);
                proof {
                    reveal(spec_cast_ray);
                    assert(is_closest_hit(ts, all, *ray, Some(hit)) && spec_hit_shade(
                        *ray,
                        from_camera,
                        hit,
                        c,
                    ));
                }
                return c;
            } else {
                proof {
                    reveal(spec_cast_ray);
                    assert(is_closest_hit(ts, all, *ray, Some(hit)) && spec_hit_shade(
                        *ray,
                        from_camera,
                        hit,
                        Vec3 { x: 0, y: 0, z: 0 },
                    ));
                }
                return Vec3 { x: 0, y: 0, z: 0 };
            }
        }
        // direct term: draw the area threshold and the two placement draws,
        // sample a light point, test visibility with a shadow ray, and
        // weight by geometry and the light's area density
        let mut hit_color = Vec3 { x: 0, y: 0, z: 0 };
        let p = self.draw_light_threshold(rng);
        let pz1 = rng.next_unit();
        let pz2 = rng.next_unit();
        match self.sample_light_with(p, pz1, pz2) {
            None => {
            },
            Some(ls) => {
                let diff = ls.coords.sub(hit.coords);
                proof {
                    assert(diff == svec_sub(ls.coords, hit.coords));
                }
                let ws = diff.normalized();
                let shadow_ray = Ray::new(hit.coords, ws);
                proof {
                    assert(shadow_ray == (Ray { origin: hit.coords, direction: ws }));
                }
                match self.intersect(&shadow_ray) {
                    None => {
                    },
                    Some(sh) => {
                        proof {
                            if tris_mats_nonneg(ts) {
                                let k2 = choose|k2: int|
                                    0 <= k2 < all.len() && crate::triangle::tri_hits(
                                        ts[#[trigger] all[k2] as int],
                                        shadow_ray,
                                    ) && crate::triangle::hit_matches(
                                        ts[all[k2] as int],
                                        shadow_ray,
                                        sh,
                                    );
                                assert(mat_nonneg(sh.m));
                            }
                        }
                        if close_enough(sh.coords, ls.coords) {
                            let f_r = hit.m.eval(wo, ws, n);
                            proof {
                                if tris_mats_nonneg(ts) {
                                    crate::color::lemma_sfx_mul_nonneg(hit.m.kd.x as int, 81);
                                    crate::color::lemma_sfx_mul_nonneg(hit.m.kd.y as int, 81);
                                    crate::color::lemma_sfx_mul_nonneg(hit.m.kd.z as int, 81);
                                    assert(color_nonneg(f_r));
                                }
                            }
                            let cos1 = cos_fx(ws, n);
                            let cos2 = neg_cos_fx(ws, sh.normal);
                            let d2 = dist2_fx(diff);
                            hit_color = direct_term(
                                sh.m.get_emission(),
                                f_r,
                                cos1,
                                cos2,
                                d2,
                                ls.pdf,
                            );
                        }
                    },
                }
            },
        }
        // roulette: continue only with probability russian_roulette / SCALE
        let xi = rng.next_unit();
        if xi >= self.russian_roulette {
            proof {
                reveal(spec_cast_ray);
                assert(is_closest_hit(ts, all, *ray, Some(hit)) && spec_hit_shade(
                    *ray,
                    from_camera,
                    hit,
                    hit_color,
                ));
            }
            return hit_color;
        }
        // indirect term: scatter by the material, recurse, reweight
        let z1 = rng.next_unit();
        let z2 = rng.next_unit();
        let wi = hit.m.sameple(wo, n, z1, z2);
        let rec_ray = Ray::new(hit.coords, wi);
        let rec = self.cast_ray_depth(&rec_ray, false, rng, depth - 1);
        let f_r = hit.m.eval(wi, wo, n);
        let cos_i = cos_fx(wi, n);
        let pdf_v = hit.m.pdf(wi, wo, n);
        proof {
            if tris_mats_nonneg(ts) {
                crate::color::lemma_sfx_mul_nonneg(hit.m.kd.x as int, 81);
                crate::color::lemma_sfx_mul_nonneg(hit.m.kd.y as int, 81);
                crate::color::lemma_sfx_mul_nonneg(hit.m.kd.z as int, 81);
                assert(color_nonneg(f_r));
            }
            if pdf_v > 0 {
                vstd::arithmetic::div_mod::lemma_div_pos_is_pos(sdot(wi, n), 256);
                assert(cos_i >= 0);
            }
        }
        let ind = combine_indirect(rec, f_r, cos_i, pdf_v, self.russian_roulette);
        let out = color_add(hit_color, ind);
        proof {
            reveal(spec_cast_ray);
            assert(is_closest_hit(ts, all, *ray, Some(hit)) && spec_hit_shade(
                *ray,
                from_camera,
                hit,
                out,
            ));
        }
        out
    }

    /// Nearest hit over every triangle of the scene, through the aggregate
    /// hierarchy; no hit is reported until the hierarchy is built.
    pub fn intersect(&self, ray: &Ray) -> (r: Option<Intersection>)
        requires
            self.wf(),
            ray.wf(),
        ensures
            r == spec_scene_hit(*self, *ray),
            self.bvh is Some ==> is_closest_hit(
                scene_tris(self.objects@),
                all_idxs(scene_tris(self.objects@).len() as int),
                *ray,
                r,
            ),
            self.bvh is None ==> r is None,
            r matches Some(h) ==> h.wf(),
    {
        match &self.bvh {
            None => None,
            Some(b) => b.intersect(ray),
        }
    }

    /// Draw the light-sampling area threshold: one generator step, spread
    /// over the total emissive area.
    fn draw_light_threshold(&self, rng: &mut Rng) -> (p: i128)
        requires
            self.objects_wf(),
            scene_tris(self.objects@).len() <= 0x8_0000,
        ensures
            final(rng).state == spec_next(old(rng).state),
            p as int == spec_light_threshold(self.objects@, final(rng).state),
            0 <= p,
            (p < emit_from(self.objects@, 0)) == (emit_from(self.objects@, 0) > 0),
    {
        let total = self.emit_area2();
        let z = rng.next_unit();
        proof {
            lemma_mul_abs_bound(total as int, z as int, 0x8000_0000_0000_0000, 256);
            assert(0 <= total * z) by (nonlinear_arith)
                requires
                    0 <= total,
                    0 <= z,
            ;
        }
        let p = div_trunc(total * (z as i128), 256);
        proof {
            reveal(spec_light_threshold);
            lemma_light_threshold(self.objects@, total as int, z as int, p as int);
            assert(z as int == draw(final(rng).state));
        }
        p
    }
}

/// The value `Scene::intersect` computes: the aggregate traversal once the
/// hierarchy is built, no hit before that.
pub open spec fn spec_scene_hit(s: Scene, r: Ray) -> Option<Intersection> {
    match s.bvh {
        Option::None => None,
        Option::Some(b) => crate::bvh::spec_accel_hit(b, r),
    }
}

/// Componentwise difference of two world points.
pub open spec fn svec_sub(a: Vec3, b: Vec3) -> Vec3 {
    Vec3 { x: (a.x - b.x) as i64, y: (a.y - b.y) as i64, z: (a.z - b.z) as i64 }
}

/// Componentwise negation of a world vector.
pub open spec fn svec_neg(v: Vec3) -> Vec3 {
    Vec3 { x: (-v.x) as i64, y: (-v.y) as i64, z: (-v.z) as i64 }
}

/// The zero radiance.
pub open spec fn czero() -> Vec3 {
    Vec3 { x: 0, y: 0, z: 0 }
}

/// Saturating componentwise radiance sum.
pub open spec fn csum(a: Vec3, b: Vec3) -> Vec3 {
    Vec3 {
        x: crate::color::ssat_add(a.x as int, b.x as int) as i64,
        y: crate::color::ssat_add(a.y as int, b.y as int) as i64,
        z: crate::color::ssat_add(a.z as int, b.z as int) as i64,
    }
}

/// The value the estimator computes, and the generator state it leaves
/// behind, as one function of the scene, the ray, the camera flag, the
/// incoming state and the remaining depth: the full mirror of one bounce —
/// threshold draw, light sample, shadow test, direct term, roulette,
/// scattered recursion — composed from the exactly specified pieces.
#[verifier::opaque]
pub open spec fn spec_cast_ray(s: Scene, ray: Ray, from_camera: bool, st: u64, depth: u32) -> (
    Vec3,
    u64,
)
    decreases depth,
{
    if depth == 0 {
        (czero(), st)
    } else {
        match spec_scene_hit(s, ray) {
            Option::None => (czero(), st),
            Option::Some(h) => {
                if spec_has_emission(h.m) {
                    if from_camera {
                        (spec_emit_shade(h.m.m_emission, ray, h.normal), st)
                    } else {
                        (czero(), st)
                    }
                } else {
                    let s1 = spec_next(st);
                    let s2 = spec_next(s1);
                    let s3 = spec_next(s2);
                    let p = spec_light_threshold(s.objects@, s1);
                    let direct = match spec_sample_light(s.objects@, p, draw(s2), draw(s3)) {
                        Option::None => czero(),
                        Option::Some(ls) => {
                            let diff = svec_sub(ls.coords, h.coords);
                            let ws = crate::vec3::snormalized(diff);
                            match spec_scene_hit(s, Ray { origin: h.coords, direction: ws }) {
                                Option::None => czero(),
                                Option::Some(sh) => {
                                    if spec_close(sh.coords, ls.coords) {
                                        spec_direct_term(
                                            sh.m.m_emission,
                                            crate::material::spec_eval(h.m, ws, h.normal),
                                            sdiv_trunc(sdot(ws, h.normal), 256),
                                            sdiv_trunc(-sdot(ws, sh.normal), 256),
                                            sdiv_trunc(sdot(diff, diff), 256),
                                            ls.pdf,
                                        )
                                    } else {
                                        czero()
                                    }
                                },
                            }
                        },
                    };
                    let s4 = spec_next(s3);
                    if draw(s4) >= s.russian_roulette {
                        (direct, s4)
                    } else {
                        let s5 = spec_next(s4);
                        let s6 = spec_next(s5);
                        let wi = crate::material::spec_sample_dir(h.normal, draw(s5), draw(s6));
                        let rr = spec_cast_ray(
                            s,
                            Ray { origin: h.coords, direction: wi },
                            false,
                            s6,
                            (depth - 1) as u32,
                        );
                        let ind = spec_indirect(
                            rr.0,
                            crate::material::spec_eval(h.m, svec_neg(ray.direction), h.normal),
                            sdiv_trunc(sdot(wi, h.normal), 256),
                            crate::material::spec_pdf(h.m, wi, h.normal),
                            s.russian_roulette as int,
                        );
                        (csum(direct, ind), rr.1)
                    }
                }
            },
        }
    }
}

/// The nonnegative part of a cosine factor: grid rounding can push a
/// grazing cosine a hair below zero, and radiance factors clamp there.
pub open spec fn pos_part(v: int) -> int {
    if v > 0 {
        v
    } else {
        0
    }
}

/// The fixed-point cosine factor of an emissive hit seen along the ray:
/// `(wo . n) / SCALE` with `wo = -direction`, clamped at zero.
pub open spec fn spec_emit_cos(ray: Ray, n: Vec3) -> int {
    pos_part(sdiv_trunc(-sdot(ray.direction, n), 256))
}

/// `emission * (wo . n)` in saturating fixed point, cosine clamped at
/// zero.
pub open spec fn spec_emit_shade(e: Vec3, ray: Ray, n: Vec3) -> Vec3 {
    Vec3 {
        x: sfx_mul(e.x as int, spec_emit_cos(ray, n)) as i64,
        y: sfx_mul(e.y as int, spec_emit_cos(ray, n)) as i64,
        z: sfx_mul(e.z as int, spec_emit_cos(ray, n)) as i64,
    }
}

/// What the estimator returns at a nearest hit `h`: an emissive surface
/// short-circuits — the full shade for a camera ray, black for an indirect
/// ray (no double counting against the direct-light term of the previous
/// vertex); any other surface yields some in-range radiance.
pub open spec fn spec_hit_shade(ray: Ray, from_camera: bool, h: Intersection, r: Vec3) -> bool {
    if spec_has_emission(h.m) {
        if from_camera {
            r == spec_emit_shade(h.m.m_emission, ray, h.normal)
        } else {
            r == (Vec3 { x: 0, y: 0, z: 0 })
        }
    } else {
        color_ok(r)
    }
}

/// Exact exec counterpart of `spec_emit_shade`.
fn emit_shade(e: Vec3, ray: &Ray, n: Vec3) -> (r: Vec3)
    requires
        ray.wf(),
        bounded(n, 0x10_0000),
    ensures
        r == spec_emit_shade(e, *ray, n),
        color_ok(r),
        color_nonneg(e) ==> color_nonneg(r),
{
    let d: i128 = ray.direction.dot(n);
    proof {
        lemma_mul_abs_bound(ray.direction.x as int, n.x as int, 0x10_0000, 0x10_0000);
        lemma_mul_abs_bound(ray.direction.y as int, n.y as int, 0x10_0000, 0x10_0000);
        lemma_mul_abs_bound(ray.direction.z as int, n.z as int, 0x10_0000, 0x10_0000);
        crate::num::lemma_div_trunc_bounds(
            -(d as int),
            256,
            -0x1_0000_0000_0000,
            0x1_0000_0000_0000,
        );
    }
    let cfx0 = div_trunc(-d, 256) as i64;
    let cfx = if cfx0 > 0 {
        cfx0
    } else {
        0
    };
    proof {
        if color_nonneg(e) {
            crate::color::lemma_sfx_mul_nonneg(e.x as int, cfx as int);
            crate::color::lemma_sfx_mul_nonneg(e.y as int, cfx as int);
            crate::color::lemma_sfx_mul_nonneg(e.z as int, cfx as int);
        }
    }
    Vec3 {
        x: crate::color::fx_mul(e.x, cfx),
        y: crate::color::fx_mul(e.y, cfx),
        z: crate::color::fx_mul(e.z, cfx),
    }
}

/// Positional tolerance, in grid steps, of the shadow-ray visibility test.
pub const VIS_EPS: i64 = 4;

/// The two points agree within the visibility tolerance on every axis.
pub open spec fn spec_close(a: Vec3, b: Vec3) -> bool {
    &&& -(VIS_EPS as int) <= a.x - b.x <= VIS_EPS as int
    &&& -(VIS_EPS as int) <= a.y - b.y <= VIS_EPS as int
    &&& -(VIS_EPS as int) <= a.z - b.z <= VIS_EPS as int
}

fn close_enough(a: Vec3, b: Vec3) -> (r: bool)
    requires
        in_world(a),
        in_world(b),
    ensures
        r == spec_close(a, b),
{
    let dx = a.x - b.x;
    let dy = a.y - b.y;
    let dz = a.z - b.z;
    -VIS_EPS <= dx && dx <= VIS_EPS && -VIS_EPS <= dy && dy <= VIS_EPS && -VIS_EPS <= dz && dz
        <= VIS_EPS
}

/// The fixed-point cosine `(a . b) / SCALE` of two fixed-point vectors.
fn cos_fx(a: Vec3, b: Vec3) -> (r: i64)
    requires
        bounded(a, 0x10_0000),
        bounded(b, 0x10_0000),
    ensures
        r == sdiv_trunc(sdot(a, b), 256),
{
    let d: i128 = a.dot(b);
    proof {
        lemma_mul_abs_bound(a.x as int, b.x as int, 0x10_0000, 0x10_0000);
        lemma_mul_abs_bound(a.y as int, b.y as int, 0x10_0000, 0x10_0000);
        lemma_mul_abs_bound(a.z as int, b.z as int, 0x10_0000, 0x10_0000);
        crate::num::lemma_div_trunc_bounds(
            d as int,
            256,
            -0x1_0000_0000_0000,
            0x1_0000_0000_0000,
        );
    }
    div_trunc(d, 256) as i64
}

/// The fixed-point cosine against the reversed second vector,
/// `(a . -b) / SCALE`.
fn neg_cos_fx(a: Vec3, b: Vec3) -> (r: i64)
    requires
        bounded(a, 0x10_0000),
        bounded(b, 0x10_0000),
    ensures
        r == sdiv_trunc(-sdot(a, b), 256),
{
    let d: i128 = a.dot(b);
    proof {
        lemma_mul_abs_bound(a.x as int, b.x as int, 0x10_0000, 0x10_0000);
        lemma_mul_abs_bound(a.y as int, b.y as int, 0x10_0000, 0x10_0000);
        lemma_mul_abs_bound(a.z as int, b.z as int, 0x10_0000, 0x10_0000);
        crate::num::lemma_div_trunc_bounds(
            -(d as int),
            256,
            -0x1_0000_0000_0000,
            0x1_0000_0000_0000,
        );
    }
    div_trunc(-d, 256) as i64
}

/// The fixed-point squared distance `(d . d) / SCALE` of a difference
/// vector.
fn dist2_fx(d: Vec3) -> (r: i64)
    requires
        bounded(d, 0x20_0000),
    ensures
        r == sdiv_trunc(sdot(d, d), 256),
        r >= 0,
{
    let p: i128 = d.dot(d);
    proof {
        lemma_mul_abs_bound(d.x as int, d.x as int, 0x20_0000, 0x20_0000);
        lemma_mul_abs_bound(d.y as int, d.y as int, 0x20_0000, 0x20_0000);
        lemma_mul_abs_bound(d.z as int, d.z as int, 0x20_0000, 0x20_0000);
        assert(p >= 0) by (nonlinear_arith)
            requires
                p == (d.x as int) * (d.x as int) + (d.y as int) * (d.y as int) + (d.z as int) * (
                d.z as int),
        ;
        crate::num::lemma_div_trunc_bounds(
            p as int,
            256,
            0,
            0x4_0000_0000_0000,
        );
    }
    div_trunc(p, 256) as i64
}

/// Division of a color by an exact rational density: `v * den / num`,
/// truncated and saturated componentwise.
fn div_by_pdf(v: Vec3, pdf: Rat) -> (r: Vec3)
    requires
        pdf.wf(),
        pdf.num > 0,
    ensures
        r.x == sat(sdiv_trunc(v.x * pdf.den, pdf.num as int)),
        r.y == sat(sdiv_trunc(v.y * pdf.den, pdf.num as int)),
        r.z == sat(sdiv_trunc(v.z * pdf.den, pdf.num as int)),
        color_nonneg(v) ==> color_nonneg(r),
{
    proof {
        if color_nonneg(v) {
            assert(0 <= v.x * pdf.den && 0 <= v.y * pdf.den && 0 <= v.z * pdf.den)
                by (nonlinear_arith)
                requires
                    0 <= v.x,
                    0 <= v.y,
                    0 <= v.z,
                    0 < pdf.den,
            ;
            vstd::arithmetic::div_mod::lemma_div_pos_is_pos(v.x * pdf.den, pdf.num as int);
            vstd::arithmetic::div_mod::lemma_div_pos_is_pos(v.y * pdf.den, pdf.num as int);
            vstd::arithmetic::div_mod::lemma_div_pos_is_pos(v.z * pdf.den, pdf.num as int);
        }
        lemma_mul_abs_bound(
            v.x as int,
            pdf.den as int,
            0x8000_0000_0000_0000,
            0x8000_0000_0000_0000,
        );
        lemma_mul_abs_bound(
            v.y as int,
            pdf.den as int,
            0x8000_0000_0000_0000,
            0x8000_0000_0000_0000,
        );
        lemma_mul_abs_bound(
            v.z as int,
            pdf.den as int,
            0x8000_0000_0000_0000,
            0x8000_0000_0000_0000,
        );
    }
    let x = clamp_q(div_trunc((v.x as i128) * pdf.den, pdf.num));
    let y = clamp_q(div_trunc((v.y as i128) * pdf.den, pdf.num));
    let z = clamp_q(div_trunc((v.z as i128) * pdf.den, pdf.num));
    Vec3 { x, y, z }
}

fn clamp_q(v: i128) -> (r: i64)
    ensures
        r == sat(v as int),
{
    if v > CMAX as i128 {
        CMAX
    } else if v < -(CMAX as i128) {
        -CMAX
    } else {
        v as i64
    }
}

/// The direct-light contribution at an unoccluded light sample, exactly
/// as the estimator weighs it:
/// `emission * f_r * (ws . n) * (ws . -n_light) / |x - p|^2 / pdf_light`
/// in saturating fixed point, with the division by the light's density
/// taken exactly as a rational. A degenerate zero distance contributes
/// nothing.
pub open spec fn spec_direct_term(
    emission: Vec3,
    f_r: Vec3,
    cos1: int,
    cos2: int,
    d2: int,
    pdf: Rat,
) -> Vec3 {
    if d2 <= 0 {
        Vec3 { x: 0, y: 0, z: 0 }
    } else {
        let m = |e: int, f: int|
            sat(
                sdiv_trunc(
                    sfx_div(
                        sfx_mul(sfx_mul(sfx_mul(e, f), pos_part(cos1)), pos_part(cos2)),
                        d2,
                    ) * pdf.den,
                    pdf.num as int,
                ),
            );
        Vec3 {
            x: m(emission.x as int, f_r.x as int) as i64,
            y: m(emission.y as int, f_r.y as int) as i64,
            z: m(emission.z as int, f_r.z as int) as i64,
        }
    }
}

/// Exact exec counterpart of `spec_direct_term`.
fn direct_term(emission: Vec3, f_r: Vec3, cos1: i64, cos2: i64, d2: i64, pdf: Rat) -> (r: Vec3)
    requires
        pdf.wf(),
        pdf.num > 0,
    ensures
        r == spec_direct_term(emission, f_r, cos1 as int, cos2 as int, d2 as int, pdf),
        color_ok(r),
        color_nonneg(emission) && color_nonneg(f_r) ==> color_nonneg(r),
{
    if d2 <= 0 {
        Vec3 { x: 0, y: 0, z: 0 }
    } else {
        let cp1 = if cos1 > 0 {
            cos1
        } else {
            0
        };
        let cp2 = if cos2 > 0 {
            cos2
        } else {
            0
        };
        proof {
            if color_nonneg(emission) && color_nonneg(f_r) {
                crate::color::lemma_sfx_mul_nonneg(emission.x as int, f_r.x as int);
                crate::color::lemma_sfx_mul_nonneg(emission.y as int, f_r.y as int);
                crate::color::lemma_sfx_mul_nonneg(emission.z as int, f_r.z as int);
            }
        }
        let c1 = color_mul(emission, f_r);
        proof {
            if color_nonneg(c1) {
                crate::color::lemma_sfx_mul_nonneg(c1.x as int, cp1 as int);
                crate::color::lemma_sfx_mul_nonneg(c1.y as int, cp1 as int);
                crate::color::lemma_sfx_mul_nonneg(c1.z as int, cp1 as int);
            }
        }
        let c2 = color_scale(c1, cp1);
        proof {
            if color_nonneg(c2) {
                crate::color::lemma_sfx_mul_nonneg(c2.x as int, cp2 as int);
                crate::color::lemma_sfx_mul_nonneg(c2.y as int, cp2 as int);
                crate::color::lemma_sfx_mul_nonneg(c2.z as int, cp2 as int);
            }
        }
        let c3 = color_scale(c2, cp2);
        proof {
            if color_nonneg(c3) {
                crate::color::lemma_sfx_div_nonneg(c3.x as int, d2 as int);
                crate::color::lemma_sfx_div_nonneg(c3.y as int, d2 as int);
                crate::color::lemma_sfx_div_nonneg(c3.z as int, d2 as int);
            }
        }
        let c4 = color_div(c3, d2);
        div_by_pdf(c4, pdf)
    }
}

/// The indirect contribution, exactly as the estimator weighs it:
/// `rec * f_r * cos / pdf / rr` in saturating fixed point, with the
/// roulette factor `1 / rr` applied only here — the terminating branch
/// returns the direct term unscaled, which keeps the estimator unbiased.
/// A nonpositive density contributes nothing.
pub open spec fn spec_indirect(rec: Vec3, f_r: Vec3, cos_i: int, pdf_v: int, rr: int) -> Vec3 {
    if pdf_v <= 0 {
        Vec3 { x: 0, y: 0, z: 0 }
    } else {
        Vec3 {
            x: sfx_div(sfx_div(sfx_mul(sfx_mul(rec.x as int, f_r.x as int), cos_i), pdf_v), rr) as i64,
            y: sfx_div(sfx_div(sfx_mul(sfx_mul(rec.y as int, f_r.y as int), cos_i), pdf_v), rr) as i64,
            z: sfx_div(sfx_div(sfx_mul(sfx_mul(rec.z as int, f_r.z as int), cos_i), pdf_v), rr) as i64,
        }
    }
}

/// Exact exec counterpart of `spec_indirect`.
fn combine_indirect(rec: Vec3, f_r: Vec3, cos_i: i64, pdf_v: i64, rr: i64) -> (r: Vec3)
    requires
        0 < rr,
    ensures
        r == spec_indirect(rec, f_r, cos_i as int, pdf_v as int, rr as int),
        color_ok(r),
        color_nonneg(rec) && color_nonneg(f_r) && (pdf_v > 0 ==> cos_i >= 0) ==> color_nonneg(r),
{
    if pdf_v <= 0 {
        Vec3 { x: 0, y: 0, z: 0 }
    } else {
        proof {
            if color_nonneg(rec) && color_nonneg(f_r) && cos_i >= 0 {
                crate::color::lemma_sfx_mul_nonneg(rec.x as int, f_r.x as int);
                crate::color::lemma_sfx_mul_nonneg(rec.y as int, f_r.y as int);
                crate::color::lemma_sfx_mul_nonneg(rec.z as int, f_r.z as int);
            }
        }
        let c1 = color_mul(rec, f_r);
        proof {
            if color_nonneg(c1) && cos_i >= 0 {
                crate::color::lemma_sfx_mul_nonneg(c1.x as int, cos_i as int);
                crate::color::lemma_sfx_mul_nonneg(c1.y as int, cos_i as int);
                crate::color::lemma_sfx_mul_nonneg(c1.z as int, cos_i as int);
            }
        }
        let c2 = color_scale(c1, cos_i);
        proof {
            if color_nonneg(c2) {
                crate::color::lemma_sfx_div_nonneg(c2.x as int, pdf_v as int);
                crate::color::lemma_sfx_div_nonneg(c2.y as int, pdf_v as int);
                crate::color::lemma_sfx_div_nonneg(c2.z as int, pdf_v as int);
            }
        }
        let c3 = color_div(c2, pdf_v);
        proof {
            if color_nonneg(c3) {
                crate::color::lemma_sfx_div_nonneg(c3.x as int, rr as int);
                crate::color::lemma_sfx_div_nonneg(c3.y as int, rr as int);
                crate::color::lemma_sfx_div_nonneg(c3.z as int, rr as int);
            }
        }
        color_div(c3, rr)
    }
}

} // verus!
