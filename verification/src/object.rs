//! Scene objects: a lone triangle, or a triangle mesh backed by its own
//! hierarchy, behaving as one object with the shared capability set
//! (intersect, bounds, area, emissive sampling, emission query).

use vstd::prelude::*;

use crate::bounds3::Bounds3;
use crate::bvh::{
    all_idxs, box_contains, is_closest_hit, node_pick, tris_wf, BVHAccel,
};
use crate::intersection::{Intersection, SampleResult};
use crate::material::{spec_has_emission, Material};
use crate::ray::Ray;
use crate::triangle::{sample_point_matches, tri_det, tri_hits, tri_t_num, Triangle};
use crate::vec3::{in_world, Vec3};

verus! {

/// A triangle mesh: its own triangle arena behind a private hierarchy, an
/// aggregate box and doubled area, and one material shared by every face.
pub struct MeshTriangle {
    pub bvh: BVHAccel,
    pub bounding_box: Bounds3,
    pub area2: i128,
    pub m: Material,
}

impl MeshTriangle {
    pub open spec fn tris(self) -> Seq<Triangle> {
        self.bvh.objects@
    }

    pub open spec fn wf(self) -> bool {
        &&& self.bvh.wf()
        &&& 1 <= self.tris().len() <= 0x8_0000
        &&& self.area2 == self.bvh.spec_area2()
        &&& self.bounding_box.wf()
        &&& forall|k: int|
            0 <= k < self.tris().len() ==> box_contains(
                self.bounding_box,
                (#[trigger] self.tris()[k]).bounding_box,
            )
        &&& forall|k: int| 0 <= k < self.tris().len() ==> (#[trigger] self.tris()[k]).m == self.m
    }

    /// Build a mesh from parsed vertex triples, one face each, all sharing
    /// the one material.
    pub fn new(faces: &Vec<(Vec3, Vec3, Vec3)>, m: Material) -> (r: MeshTriangle)
        requires
            1 <= faces@.len() <= 0x8_0000,
            forall|k: int|
                0 <= k < faces@.len() ==> {
                    &&& in_world((#[trigger] faces@[k]).0)
                    &&& in_world(faces@[k].1)
                    &&& in_world(faces@[k].2)
                },
        ensures
            r.wf(),
            r.m == m,
            r.tris().len() == faces@.len(),
            forall|k: int|
                0 <= k < faces@.len() ==> {
                    &&& (#[trigger] r.tris()[k]).v0 == faces@[k].0
                    &&& r.tris()[k].v1 == faces@[k].1
                    &&& r.tris()[k].v2 == faces@[k].2
                    &&& r.tris()[k].m == m
                },
    {
        let n = faces.len();
        let mut tris: Vec<Triangle> = Vec::new();
        let mut i: usize = 0;
        while i < n
            invariant
                0 <= i <= n,
                n == faces@.len(),
                tris@.len() == i,
                forall|k: int|
                    0 <= k < faces@.len() ==> {
                        &&& in_world((#[trigger] faces@[k]).0)
                        &&& in_world(faces@[k].1)
                        &&& in_world(faces@[k].2)
                    },
                forall|k: int|
                    0 <= k < i ==> {
                        &&& (#[trigger] tris@[k]).wf()
                        &&& tris@[k].v0 == faces@[k].0
                        &&& tris@[k].v1 == faces@[k].1
                        &&& tris@[k].v2 == faces@[k].2
                        &&& tris@[k].m == m
                    },
            decreases n - i,
        {
            let f = &faces[i];
            tris.push(Triangle::new(f.0, f.1, f.2, m));
            i = i + 1;
        }
        // aggregate box: union of the face boxes
        let mut bounding_box = tris[0].get_bounds();
        let mut k: usize = 1;
        while k < tris.len()
            invariant
                1 <= k <= tris@.len(),
                tris@.len() == n,
                1 <= n,
                forall|j: int| 0 <= j < n ==> (#[trigger] tris@[j]).wf(),
                bounding_box.wf(),
                forall|j: int|
                    0 <= j < k ==> box_contains(bounding_box, (#[trigger] tris@[j]).bounding_box),
            decreases tris@.len() - k,
        {
            bounding_box = bounding_box.union(&tris[k].get_bounds());
            k = k + 1;
        }
        let bvh = BVHAccel::new(tris);
        let area2 = bvh.area2();
        MeshTriangle { bvh, bounding_box, area2, m }
    }

    pub fn get_bounds(&self) -> (r: Bounds3)
        ensures
            r == self.bounding_box,
    {
        self.bounding_box
    }

    pub fn has_emit(&self) -> (r: bool)
        ensures
            r == spec_has_emission(self.m),
    {
        self.m.has_emission()
    }

    /// Nearest hit over the mesh's own triangles, through its hierarchy.
    pub fn get_intersection(&self, ray: &Ray) -> (r: Option<Intersection>)
        requires
            self.wf(),
            ray.wf(),
        ensures
            r == crate::bvh::spec_accel_hit(self.bvh, *ray),
            is_closest_hit(self.tris(), all_idxs(self.tris().len() as int), *ray, r),
            r matches Some(h) ==> h.wf(),
    {
        self.bvh.intersect(ray)
    }
}

/// The closed set of object kinds the scene traces.
pub enum Object {
    Tri(Triangle),
    Mesh(MeshTriangle),
}

/// The value `Object::get_intersection` computes.
pub open spec fn spec_object_hit(o: Object, r: Ray) -> Option<Intersection> {
    match o {
        Object::Tri(t) => {
            if crate::triangle::tri_hits(t, r) {
                Some(crate::triangle::spec_tri_hit_record(t, r))
            } else {
                None
            }
        },
        Object::Mesh(m) => crate::bvh::spec_accel_hit(m.bvh, r),
    }
}

/// The value `Object::sample_with` computes: a lone triangle samples
/// itself, a mesh descends its hierarchy, each with its own inverse-area
/// density.
pub open spec fn spec_object_sample(o: Object, p: int, z1: int, z2: int) -> SampleResult {
    match o {
        Object::Tri(t) => crate::triangle::spec_tri_sample(t, z1, z2),
        Object::Mesh(m) => crate::bvh::spec_accel_sample(m.bvh, p, z1, z2),
    }
}

impl Object {
    /// The triangles an object stands for.
    pub open spec fn tris(self) -> Seq<Triangle> {
        match self {
            Object::Tri(t) => seq![t],
            Object::Mesh(m) => m.tris(),
        }
    }

    pub open spec fn wf(self) -> bool {
        match self {
            Object::Tri(t) => t.wf(),
            Object::Mesh(m) => m.wf(),
        }
    }

    pub open spec fn material(self) -> Material {
        match self {
            Object::Tri(t) => t.m,
            Object::Mesh(m) => m.m,
        }
    }

    /// Twice the object's surface area in grid steps.
    pub open spec fn spec_area2(self) -> int {
        match self {
            Object::Tri(t) => t.area2 as int,
            Object::Mesh(m) => m.area2 as int,
        }
    }

    pub fn area2(&self) -> (r: i128)
        requires
            self.wf(),
        ensures
            r == self.spec_area2(),
            0 <= r <= (crate::triangle::AREA2_LIMIT as int) * self.tris().len(),
    {
        proof {
            lemma_object_area_bound(*self);
        }
        match self {
            Object::Tri(t) => t.area2 as i128,
            Object::Mesh(m) => m.area2,
        }
    }

    pub fn has_emit(&self) -> (r: bool)
        ensures
            r == spec_has_emission(self.material()),
    {
        match self {
            Object::Tri(t) => t.has_emit(),
            Object::Mesh(m) => m.has_emit(),
        }
    }

    /// Nearest hit over the object's triangles.
    pub fn get_intersection(&self, ray: &Ray) -> (r: Option<Intersection>)
        requires
            self.wf(),
            ray.wf(),
        ensures
            r == spec_object_hit(*self, *ray),
            is_closest_hit(self.tris(), all_idxs(self.tris().len() as int), *ray, r),
            r matches Some(h) ==> h.wf(),
    {
        match self {
            Object::Tri(t) => {
                let res = t.get_intersection(ray);
                proof {
                    let s = all_idxs(1);
                    assert(s.len() == 1 && s[0] == 0usize);
                    assert(self.tris()[0] == *t);
                    if res is Some {
                        assert(tri_hits(self.tris()[s[0] as int], *ray));
                        assert(crate::rat::rle(
                            tri_t_num(*t, *ray),
                            tri_det(*t, *ray),
                            tri_t_num(*t, *ray),
                            tri_det(*t, *ray),
                        ));
                    }
                }
                res
            },
            Object::Mesh(m) => m.get_intersection(ray),
        }
    }

    /// Draw a point on the object's surface with the area threshold `p` and
    /// the two unit draws: the point lands on one of the object's triangles
    /// — which carries the object's material — and the density is exactly
    /// `1 / area` of the whole object.
    pub fn sample_with(&self, p: i128, z1: i64, z2: i64) -> (r: SampleResult)
        requires
            self.wf(),
            0 <= p < self.spec_area2(),
            0 <= z1 < crate::vec3::SCALE,
            0 <= z2 < crate::vec3::SCALE,
        ensures
            r == spec_object_sample(*self, p as int, z1 as int, z2 as int),
            exists|k: int|
                0 <= k < self.tris().len() && sample_point_matches(
                    #[trigger] self.tris()[k],
                    z1 as int,
                    z2 as int,
                    r.coords,
                    r.normal,
                ) && self.tris()[k].m == self.material(),
            r.pdf.num == 131072,
            r.pdf.den == self.spec_area2(),
            r.pdf.wf(),
            in_world(r.coords),
    {
        match self {
            Object::Tri(t) => {
                let res = t.sample_with(z1, z2);
                proof {
                    assert(self.tris()[0] == *t);
                    assert(sample_point_matches(
                        self.tris()[0],
                        z1 as int,
                        z2 as int,
                        res.coords,
                        res.normal,
                    ));
                }
                res
            },
            Object::Mesh(m) => {
                let res = m.bvh.sample(p, z1, z2);
                proof {
                    let root = m.bvh.root->Some_0;
                    let k = node_pick(*root, p as int) as int;
                    assert(sample_point_matches(
                        self.tris()[k],
                        z1 as int,
                        z2 as int,
                        res.coords,
                        res.normal,
                    ));
                }
                res
            },
        }
    }
}

/// An object's doubled area never exceeds 2^63: at most 2^19 triangles of
/// at most 2^44 each.
pub proof fn lemma_area2_le(o: Object)
    requires
        o.wf(),
    ensures
        0 <= o.spec_area2() <= 0x8000_0000_0000_0000,
{
    lemma_object_area_bound(o);
    let n = o.tris().len() as int;
    match o {
        Object::Tri(t) => {
            assert(n == 1);
            assert((crate::triangle::AREA2_LIMIT as int) * 1 == crate::triangle::AREA2_LIMIT as int)
                by (nonlinear_arith);
        },
        Object::Mesh(m) => {
            assert((crate::triangle::AREA2_LIMIT as int) * n <= 0x8000_0000_0000_0000)
                by (nonlinear_arith)
                requires
                    0 <= n <= 0x8_0000,
                    crate::triangle::AREA2_LIMIT == 0x1000_0000_0000i64,
            ;
        },
    }
}

/// An object's doubled area is bounded by its triangle count times the
/// per-triangle cap.
pub proof fn lemma_object_area_bound(o: Object)
    requires
        o.wf(),
    ensures
        0 <= o.spec_area2() <= (crate::triangle::AREA2_LIMIT as int) * o.tris().len(),
{
    match o {
        Object::Tri(t) => {
            assert((crate::triangle::AREA2_LIMIT as int) * 1 == crate::triangle::AREA2_LIMIT as int)
                by (nonlinear_arith);
        },
        Object::Mesh(m) => {
            broadcast use vstd::seq_lib::group_to_multiset_ensures;

            match m.bvh.root {
                Option::None => {
                    assert(false);
                },
                Option::Some(root) => {
                    assert(crate::bvh::node_idxs(*root).to_multiset().len() == crate::bvh::node_idxs(
                        *root,
                    ).len());
                    assert(all_idxs(m.tris().len() as int).to_multiset().len() == all_idxs(
                        m.tris().len() as int,
                    ).len());
                },
            }
        },
    }
}

} // verus!
