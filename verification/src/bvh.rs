//! The bounding-volume hierarchy: median-split build and nearest-hit
//! traversal.
//!
//! Every traversal carries the full correctness contract: the result is the
//! closest hit, by exact rational distance, over the triangles covered by
//! the subtree — exactly what a brute-force scan over the same triangles
//! returns. Pruning by the slab test is sound because a hit triangle's exact
//! hit point lies inside its bounding box, hence inside every enclosing
//! node's box.

use vstd::prelude::*;
use crate::bounds3::{hits_at, ray_meets_box, Bounds3, Dimension};
use crate::intersection::{Intersection, SampleResult};
use crate::num::lemma_mul_le_mono;
use crate::rat::{lemma_rle_trans, rle, rlt, Rat};
use crate::ray::Ray;
use crate::triangle::{hit_matches, tri_det, tri_hits, tri_t_num, Triangle, AREA2_LIMIT};
use crate::vec3::{smax, smin};

verus! {

pub enum NodeContent {
    Leaf { object: usize },
    BiNode { left: Box<BVHBuildNode>, right: Box<BVHBuildNode> },
}

pub struct BVHBuildNode {
    pub bounds: Bounds3,
    /// Twice the summed area of the subtree's triangles, in grid steps.
    pub area2: i128,
    pub content: NodeContent,
}

/// The indices of the triangles covered by the subtree, left to right.
pub open spec fn node_idxs(n: BVHBuildNode) -> Seq<usize>
    decreases n,
{
    match n.content {
        NodeContent::Leaf { object } => seq![object],
        NodeContent::BiNode { left, right } => node_idxs(*left) + node_idxs(*right),
    }
}

/// One box encloses another.
pub open spec fn box_contains(outer: Bounds3, inner: Bounds3) -> bool {
    &&& outer.min.x <= inner.min.x
    &&& outer.min.y <= inner.min.y
    &&& outer.min.z <= inner.min.z
    &&& inner.max.x <= outer.max.x
    &&& inner.max.y <= outer.max.y
    &&& inner.max.z <= outer.max.z
}

/// Structural invariant of a built subtree over the triangle arena `objs`:
/// a leaf carries its triangle's box and doubled area; an inner node carries
/// the exact union of its children's boxes and the sum of their areas.
pub open spec fn node_wf(n: BVHBuildNode, objs: Seq<Triangle>) -> bool
    decreases n,
{
    &&& n.bounds.wf()
    &&& 0 <= n.area2 <= (AREA2_LIMIT as int) * node_idxs(n).len()
    &&& match n.content {
        NodeContent::Leaf { object } => {
            &&& (object as int) < objs.len()
            &&& objs[object as int].wf()
            &&& n.bounds == objs[object as int].bounding_box
            &&& n.area2 == objs[object as int].area2
        },
        NodeContent::BiNode { left, right } => {
            &&& node_wf(*left, objs)
            &&& node_wf(*right, objs)
            &&& n.bounds.min.x == smin(left.bounds.min.x as int, right.bounds.min.x as int)
            &&& n.bounds.min.y == smin(left.bounds.min.y as int, right.bounds.min.y as int)
            &&& n.bounds.min.z == smin(left.bounds.min.z as int, right.bounds.min.z as int)
            &&& n.bounds.max.x == smax(left.bounds.max.x as int, right.bounds.max.x as int)
            &&& n.bounds.max.y == smax(left.bounds.max.y as int, right.bounds.max.y as int)
            &&& n.bounds.max.z == smax(left.bounds.max.z as int, right.bounds.max.z as int)
            &&& n.area2 == left.area2 + right.area2
        },
    }
}

/// `res` is the nearest hit, by exact rational distance, that the ray finds
/// among the triangles at indices `s` — the statement a brute-force scan
/// over `s` satisfies as well.
pub open spec fn is_closest_hit(
    objs: Seq<Triangle>,
    s: Seq<usize>,
    r: Ray,
    res: Option<Intersection>,
) -> bool {
    match res {
        None => forall|k: int| 0 <= k < s.len() ==> !tri_hits(objs[#[trigger] s[k] as int], r),
        Some(h) => {
            &&& (exists|k: int|
                0 <= k < s.len() && tri_hits(objs[#[trigger] s[k] as int], r) && hit_matches(
                    objs[s[k] as int],
                    r,
                    h,
                ))
            &&& forall|k: int|
                0 <= k < s.len() && tri_hits(objs[#[trigger] s[k] as int], r) ==> rle(
                    h.distance.num as int,
                    h.distance.den as int,
                    tri_t_num(objs[s[k] as int], r),
                    tri_det(objs[s[k] as int], r),
                )
        },
    }
}

/// The value the nearest-hit traversal computes, as a function of the
/// subtree, the arena and the ray: prune on a missed box; solve at a leaf;
/// otherwise keep the closer child hit, the right one on a tie.
pub open spec fn spec_node_hit(n: BVHBuildNode, objs: Seq<Triangle>, r: Ray) -> Option<
    Intersection,
>
    decreases n,
{
    if !ray_meets_box(n.bounds, r) {
        None
    } else {
        match n.content {
            NodeContent::Leaf { object } => {
                if tri_hits(objs[object as int], r) {
                    Some(crate::triangle::spec_tri_hit_record(objs[object as int], r))
                } else {
                    None
                }
            },
            NodeContent::BiNode { left, right } => {
                let li = spec_node_hit(*left, objs, r);
                let ri = spec_node_hit(*right, objs, r);
                if li is None {
                    ri
                } else if ri is None {
                    li
                } else if rlt(
                    li->Some_0.distance.num as int,
                    li->Some_0.distance.den as int,
                    ri->Some_0.distance.num as int,
                    ri->Some_0.distance.den as int,
                ) {
                    li
                } else {
                    ri
                }
            },
        }
    }
}

/// Every triangle covered by a well-formed subtree sits, box and all,
/// inside the subtree's bounds.
proof fn lemma_covered_boxes(n: BVHBuildNode, objs: Seq<Triangle>)
    requires
        node_wf(n, objs),
    ensures
        forall|k: int|
            0 <= k < node_idxs(n).len() ==> {
                &&& (node_idxs(n)[k] as int) < objs.len()
                &&& objs[#[trigger] node_idxs(n)[k] as int].wf()
                &&& box_contains(n.bounds, objs[node_idxs(n)[k] as int].bounding_box)
            },
    decreases n,
{
    match n.content {
        NodeContent::Leaf { object } => {
        },
        NodeContent::BiNode { left, right } => {
            lemma_covered_boxes(*left, objs);
            lemma_covered_boxes(*right, objs);
            let s = node_idxs(n);
            let ls = node_idxs(*left);
            let rs = node_idxs(*right);
            assert forall|k: int| 0 <= k < s.len() implies {
                &&& (s[k] as int) < objs.len()
                &&& objs[#[trigger] s[k] as int].wf()
                &&& box_contains(n.bounds, objs[s[k] as int].bounding_box)
            } by {
                if k < ls.len() {
                    assert(s[k] == ls[k]);
                } else {
                    assert(s[k] == rs[k - ls.len()]);
                }
            }
        },
    }
}

/// A ray that misses a node's box hits no triangle covered by the node.
proof fn lemma_prune(n: BVHBuildNode, objs: Seq<Triangle>, r: Ray)
    requires
        node_wf(n, objs),
        r.wf(),
        !ray_meets_box(n.bounds, r),
    ensures
        forall|k: int|
            0 <= k < node_idxs(n).len() ==> !tri_hits(objs[#[trigger] node_idxs(n)[k] as int], r),
{
    lemma_covered_boxes(n, objs);
    let s = node_idxs(n);
    assert forall|k: int| 0 <= k < s.len() implies !tri_hits(
        objs[#[trigger] s[k] as int],
        r,
    ) by {
        let t = objs[s[k] as int];
        if tri_hits(t, r) {
            crate::triangle::lemma_hit_point_in_box(t, r);
            let tn = tri_t_num(t, r);
            let det = tri_det(t, r);
            lemma_mul_le_mono(n.bounds.min.x as int, t.bounding_box.min.x as int, det);
            lemma_mul_le_mono(n.bounds.min.y as int, t.bounding_box.min.y as int, det);
            lemma_mul_le_mono(n.bounds.min.z as int, t.bounding_box.min.z as int, det);
            lemma_mul_le_mono(t.bounding_box.max.x as int, n.bounds.max.x as int, det);
            lemma_mul_le_mono(t.bounding_box.max.y as int, n.bounds.max.y as int, det);
            lemma_mul_le_mono(t.bounding_box.max.z as int, n.bounds.max.z as int, det);
            assert(hits_at(n.bounds, r, tn, det));
        }
    }
}

impl BVHBuildNode {
    /// Nearest-hit traversal: prune by the slab test, recurse into both
    /// children, keep the closer of two hits (the right one on a tie).
    pub fn get_intersection(&self, objects: &Vec<Triangle>, ray: &Ray) -> (r: Option<Intersection>)
        requires
            node_wf(*self, objects@),
            ray.wf(),
        ensures
            r == spec_node_hit(*self, objects@, *ray),
            is_closest_hit(objects@, node_idxs(*self), *ray, r),
            r matches Some(h) ==> h.wf(),
        decreases *self,
    {
        if !self.bounds.intersect_p(ray) {
            proof {
                lemma_prune(*self, objects@, *ray);
            }
            return None;
        }
        match &self.content {
            NodeContent::Leaf { object } => {
                let res = objects[*object].get_intersection(ray);
                proof {
                    let s = node_idxs(*self);
                    if res is Some {
                        assert(tri_hits(objects@[s[0] as int], *ray));
                        assert(rle(
                            tri_t_num(objects@[s[0] as int], *ray),
                            tri_det(objects@[s[0] as int], *ray),
                            tri_t_num(objects@[s[0] as int], *ray),
                            tri_det(objects@[s[0] as int], *ray),
                        ));
                    }
                }
                res
            },
            NodeContent::BiNode { left, right } => {
                let li = left.get_intersection(objects, ray);
                let ri = right.get_intersection(objects, ray);
                let ghost s = node_idxs(*self);
                let ghost ls = node_idxs(**left);
                let ghost rs = node_idxs(**right);
                match (li, ri) {
                    (None, None) => {
                        proof {
                            assert forall|k: int| 0 <= k < s.len() implies !tri_hits(
                                objects@[#[trigger] s[k] as int],
                                *ray,
                            ) by {
                                if k < ls.len() {
                                    assert(s[k] == ls[k]);
                                } else {
                                    assert(s[k] == rs[k - ls.len()]);
                                }
                            }
                        }
                        None
                    },
                    (None, Some(rh)) => {
                        proof {
                            lemma_combine_one_side(objects@, ls, rs, *ray, rh, false);
                        }
                        Some(rh)
                    },
                    (Some(lh), None) => {
                        proof {
                            lemma_combine_one_side(objects@, ls, rs, *ray, lh, true);
                        }
                        Some(lh)
                    },
                    (Some(lh), Some(rh)) => {
                        if lh.distance.lt(rh.distance) {
                            proof {
                                lemma_combine_both(objects@, ls, rs, *ray, lh, rh, true);
                            }
                            Some(lh)
                        } else {
                            proof {
                                lemma_combine_both(objects@, ls, rs, *ray, lh, rh, false);
                            }
                            Some(rh)
                        }
                    },
                }
            },
        }
    }
}

/// Exactly one child found a hit: it is the closest over the union.
proof fn lemma_combine_one_side(
    objs: Seq<Triangle>,
    ls: Seq<usize>,
    rs: Seq<usize>,
    r: Ray,
    h: Intersection,
    from_left: bool,
)
    requires
        from_left ==> is_closest_hit(objs, ls, r, Some(h)) && is_closest_hit(objs, rs, r, None),
        !from_left ==> is_closest_hit(objs, rs, r, Some(h)) && is_closest_hit(objs, ls, r, None),
    ensures
        is_closest_hit(objs, ls + rs, r, Some(h)),
{
    let s = ls + rs;
    if from_left {
        let k0 = choose|k: int|
            0 <= k < ls.len() && tri_hits(objs[#[trigger] ls[k] as int], r) && hit_matches(
                objs[ls[k] as int],
                r,
                h,
            );
        assert(s[k0] == ls[k0]);
        assert(0 <= k0 < s.len() && tri_hits(objs[s[k0] as int], r) && hit_matches(
            objs[s[k0] as int],
            r,
            h,
        ));
    } else {
        let k0 = choose|k: int|
            0 <= k < rs.len() && tri_hits(objs[#[trigger] rs[k] as int], r) && hit_matches(
                objs[rs[k] as int],
                r,
                h,
            );
        assert(s[ls.len() + k0] == rs[k0]);
        assert(0 <= ls.len() + k0 < s.len() && tri_hits(objs[s[ls.len() + k0] as int], r)
            && hit_matches(objs[s[ls.len() + k0] as int], r, h));
    }
    assert forall|k: int|
        0 <= k < s.len() && tri_hits(objs[#[trigger] s[k] as int], r) implies rle(
        h.distance.num as int,
        h.distance.den as int,
        tri_t_num(objs[s[k] as int], r),
        tri_det(objs[s[k] as int], r),
    ) by {
        if k < ls.len() {
            assert(s[k] == ls[k]);
        } else {
            assert(s[k] == rs[k - ls.len()]);
        }
    }
}

/// Every triangle in the arena is well-formed.
pub open spec fn tris_wf(objs: Seq<Triangle>) -> bool {
    forall|k: int| 0 <= k < objs.len() ==> (#[trigger] objs[k]).wf()
}

/// Every entry is a valid arena index.
pub open spec fn valid_idxs(s: Seq<usize>, n: int) -> bool {
    forall|k: int| 0 <= k < s.len() ==> (#[trigger] s[k] as int) < n
}

/// The identity index sequence `0, 1, ..., n-1`.
pub open spec fn all_idxs(n: int) -> Seq<usize> {
    Seq::new(n as nat, |k: int| k as usize)
}

/// The doubled centroid coordinate of a triangle's box along an axis — the
/// sorting key of the median split (doubling keeps it exact on the grid).
pub open spec fn key_of(objs: Seq<Triangle>, i: usize, axis: Dimension) -> int {
    let b = objs[i as int].bounding_box;
    match axis {
        Dimension::X => b.min.x + b.max.x,
        Dimension::Y => b.min.y + b.max.y,
        Dimension::Z => b.min.z + b.max.z,
    }
}

/// Every key of the left group stays at or below every key of the right
/// group along the axis: what a median split of a sorted order leaves
/// behind.
pub open spec fn cross_sorted(
    objs: Seq<Triangle>,
    ls: Seq<usize>,
    rs: Seq<usize>,
    axis: Dimension,
) -> bool {
    forall|i: int, j: int|
        0 <= i < ls.len() && 0 <= j < rs.len() ==> key_of(objs, #[trigger] ls[i], axis) <= key_of(
            objs,
            #[trigger] rs[j],
            axis,
        )
}

/// Keys never decrease along the sequence.
pub open spec fn sorted_by_key(objs: Seq<Triangle>, s: Seq<usize>, axis: Dimension) -> bool {
    forall|k1: int, k2: int|
        0 <= k1 <= k2 < s.len() ==> key_of(objs, #[trigger] s[k1], axis) <= key_of(
            objs,
            #[trigger] s[k2],
            axis,
        )
}

fn centroid_key(objects: &Vec<Triangle>, i: usize, axis: Dimension) -> (r: i64)
    requires
        (i as int) < objects@.len(),
        objects@[i as int].wf(),
    ensures
        r == key_of(objects@, i, axis),
{
    let b = &objects[i].bounding_box;
    match axis {
        Dimension::X => b.min.x + b.max.x,
        Dimension::Y => b.min.y + b.max.y,
        Dimension::Z => b.min.z + b.max.z,
    }
}

/// Swapping two entries keeps the multiset of a sequence.
proof fn lemma_swap_multiset(s: Seq<usize>, i: int, j: int)
    requires
        0 <= i < s.len(),
        0 <= j < s.len(),
        i != j,
    ensures
        s.update(i, s[j]).update(j, s[i]).to_multiset() == s.to_multiset(),
{
    broadcast use vstd::seq_lib::group_to_multiset_ensures;
    broadcast use vstd::multiset::group_multiset_axioms;

    let s1 = s.update(i, s[j]);
    assert(s.contains(s[i]));
    assert(s1[j] == s[j]);
    assert(s1.to_multiset() == s.to_multiset().insert(s[j]).remove(s[i]));
    assert(s1.update(j, s[i]).to_multiset() == s1.to_multiset().insert(s[i]).remove(s1[j]));
    assert(s.to_multiset().insert(s[j]).remove(s[i]).insert(s[i]).remove(s[j])
        =~= s.to_multiset());
}

/// Insertion sort of the index list by centroid key along the chosen axis.
fn sort_by_centroid(objects: &Vec<Triangle>, idxs: &mut Vec<usize>, axis: Dimension)
    requires
        valid_idxs(old(idxs)@, objects@.len() as int),
        tris_wf(objects@),
    ensures
        final(idxs)@.to_multiset() == old(idxs)@.to_multiset(),
        final(idxs)@.len() == old(idxs)@.len(),
        valid_idxs(final(idxs)@, objects@.len() as int),
        sorted_by_key(objects@, final(idxs)@, axis),
{
    let ghost orig = idxs@;
    let n = idxs.len();
    if n == 0 {
        return ;
    }
    let mut i: usize = 1;
    while i < n
        invariant
            1 <= i <= n,
            n == idxs@.len(),
            idxs@.to_multiset() == orig.to_multiset(),
            valid_idxs(idxs@, objects@.len() as int),
            tris_wf(objects@),
            forall|k1: int, k2: int|
                0 <= k1 <= k2 < i ==> key_of(objects@, #[trigger] idxs@[k1], axis) <= key_of(
                    objects@,
                    #[trigger] idxs@[k2],
                    axis,
                ),
        decreases n - i,
    {
        let mut j: usize = i;
        while j > 0 && centroid_key(objects, idxs[j - 1], axis) > centroid_key(
            objects,
            idxs[j],
            axis,
        )
            invariant
                0 <= j <= i < n,
                n == idxs@.len(),
                idxs@.to_multiset() == orig.to_multiset(),
                valid_idxs(idxs@, objects@.len() as int),
                tris_wf(objects@),
                forall|k1: int, k2: int|
                    0 <= k1 < k2 <= i && k2 != j ==> key_of(objects@, #[trigger] idxs@[k1], axis)
                        <= key_of(objects@, #[trigger] idxs@[k2], axis),
            decreases j,
        {
            let ghost before = idxs@;
            let a = idxs[j - 1];
            let b = idxs[j];
            idxs.set(j - 1, b);
            idxs.set(j, a);
            proof {
                lemma_swap_multiset(before, j - 1, j as int);
                assert(idxs@ == before.update(j - 1, before[j as int]).update(
                    j as int,
                    before[j - 1],
                ));
            }
            j = j - 1;
        }
        i = i + 1;
    }
}

/// An inner node joining two built subtrees: union box, summed area.
fn join_nodes(left: BVHBuildNode, right: BVHBuildNode, Ghost(objs): Ghost<Seq<Triangle>>) -> (n:
    BVHBuildNode)
    requires
        node_wf(left, objs),
        node_wf(right, objs),
        node_idxs(left).len() + node_idxs(right).len() <= usize::MAX,
    ensures
        node_wf(n, objs),
        node_idxs(n) == node_idxs(left) + node_idxs(right),
        n.content matches NodeContent::BiNode { left: bl, right: br } && node_idxs(*bl)
            == node_idxs(left) && node_idxs(*br) == node_idxs(right),
{
    let bounds = left.bounds.union(&right.bounds);
    proof {
        let a = AREA2_LIMIT as int;
        let ll = node_idxs(left).len() as int;
        let rl = node_idxs(right).len() as int;
        assert(a * ll + a * rl == a * (ll + rl)) by (nonlinear_arith);
        assert(a * (ll + rl) <= a * (0x1_0000_0000_0000_0000)) by (nonlinear_arith)
            requires
                0 < a,
                ll + rl <= 0x1_0000_0000_0000_0000,
        ;
    }
    let area2 = left.area2 + right.area2;
    BVHBuildNode {
        bounds,
        area2,
        content: NodeContent::BiNode { left: Box::new(left), right: Box::new(right) },
    }
}

/// Recursive median-split build over an index list: one index becomes a
/// leaf; otherwise the list is sorted by centroid along the dominant axis
/// of the centroid cloud and split at the median.
fn recursive_build(objects: &Vec<Triangle>, idxs: Vec<usize>) -> (n: BVHBuildNode)
    requires
        idxs@.len() >= 1,
        valid_idxs(idxs@, objects@.len() as int),
        tris_wf(objects@),
    ensures
        node_wf(n, objects@),
        node_idxs(n).to_multiset() == idxs@.to_multiset(),
        node_idxs(n).len() == idxs@.len(),
        idxs@.len() >= 2 ==> (n.content matches NodeContent::BiNode { left, right }
            && node_idxs(*left).len() == idxs@.len() / 2 && node_idxs(*right).len() == idxs@.len()
            - idxs@.len() / 2),
        idxs@.len() >= 3 ==> (n.content matches NodeContent::BiNode { left, right }
            && exists|axis: Dimension|
            cross_sorted(objects@, node_idxs(*left), node_idxs(*right), axis)),
    decreases idxs@.len(),
{
    proof {
        broadcast use vstd::seq_lib::group_to_multiset_ensures;

    }
    if idxs.len() == 1 {
        let i = idxs[0];
        let t = &objects[i];
        let n = BVHBuildNode {
            bounds: t.bounding_box,
            area2: t.area2 as i128,
            content: NodeContent::Leaf { object: i },
        };
        proof {
            assert(node_idxs(n) =~= idxs@);
        }
        return n;
    }
    let mut idxs = idxs;
    let ghost mut sorted_axis = Dimension::X;
    let ghost mut sorted_whole = idxs@;
    if idxs.len() > 2 {
        // dominant axis of the centroid cloud (doubled centroids: the
        // comparison order is the same)
        let mut cb = Bounds3::from_point(centroid2_of(objects, idxs[0]));
        let mut k: usize = 1;
        while k < idxs.len()
            invariant
                1 <= k <= idxs@.len(),
                valid_idxs(idxs@, objects@.len() as int),
                tris_wf(objects@),
                crate::vec3::bounded(cb.min, 2 * crate::vec3::COORD_LIMIT as int),
                crate::vec3::bounded(cb.max, 2 * crate::vec3::COORD_LIMIT as int),
            decreases idxs@.len() - k,
        {
            cb = cb.union_point(centroid2_of(objects, idxs[k]));
            k = k + 1;
        }
        let axis = cb.max_extent();
        sort_by_centroid(objects, &mut idxs, axis);
        proof {
            sorted_axis = axis;
            sorted_whole = idxs@;
        }
    }
    let mid = idxs.len() / 2;
    let ghost whole = idxs@;
    let right_idxs = idxs.split_off(mid);
    let left_idxs = idxs;
    proof {
        assert(whole.subrange(0, mid as int) + whole.subrange(mid as int, whole.len() as int)
            =~= whole);
        vstd::seq_lib::lemma_multiset_commutative(left_idxs@, right_idxs@);
    }
    let left = recursive_build(objects, left_idxs);
    let right = recursive_build(objects, right_idxs);
    proof {
        vstd::seq_lib::lemma_multiset_commutative(node_idxs(left), node_idxs(right));
        if whole.len() >= 3 {
            lemma_split_cross_sorted(
                objects@,
                whole,
                mid as int,
                node_idxs(left),
                node_idxs(right),
                sorted_axis,
            );
        }
    }
    join_nodes(left, right, Ghost(objects@))
}

/// A sorted order split at any position leaves every left key at or below
/// every right key, and the property carries to any regrouping of the two
/// halves.
proof fn lemma_split_cross_sorted(
    objs: Seq<Triangle>,
    whole: Seq<usize>,
    mid: int,
    ls: Seq<usize>,
    rs: Seq<usize>,
    axis: Dimension,
)
    requires
        0 <= mid <= whole.len(),
        sorted_by_key(objs, whole, axis),
        ls.to_multiset() == whole.subrange(0, mid).to_multiset(),
        rs.to_multiset() == whole.subrange(mid, whole.len() as int).to_multiset(),
    ensures
        cross_sorted(objs, ls, rs, axis),
{
    broadcast use vstd::seq_lib::group_to_multiset_ensures;

    let lh = whole.subrange(0, mid);
    let rh = whole.subrange(mid, whole.len() as int);
    assert forall|i: int, j: int| 0 <= i < ls.len() && 0 <= j < rs.len() implies key_of(
        objs,
        #[trigger] ls[i],
        axis,
    ) <= key_of(objs, #[trigger] rs[j], axis) by {
        assert(ls.contains(ls[i]));
        assert(ls.to_multiset().count(ls[i]) > 0);
        assert(lh.to_multiset().count(ls[i]) > 0);
        assert(lh.contains(ls[i]));
        let i0 = choose|i0: int| 0 <= i0 < lh.len() && lh[i0] == ls[i];
        assert(rs.contains(rs[j]));
        assert(rs.to_multiset().count(rs[j]) > 0);
        assert(rh.to_multiset().count(rs[j]) > 0);
        assert(rh.contains(rs[j]));
        let j0 = choose|j0: int| 0 <= j0 < rh.len() && rh[j0] == rs[j];
        assert(whole[i0] == ls[i]);
        assert(whole[mid + j0] == rs[j]);
    }
}

/// The doubled centroid of a triangle's bounding box.
fn centroid2_of(objects: &Vec<Triangle>, i: usize) -> (r: crate::vec3::Vec3)
    requires
        (i as int) < objects@.len(),
        objects@[i as int].wf(),
    ensures
        crate::vec3::bounded(r, 2 * crate::vec3::COORD_LIMIT as int),
{
    objects[i].bounding_box.centroid2()
}

pub struct BVHAccel {
    pub objects: Vec<Triangle>,
    pub root: Option<Box<BVHBuildNode>>,
}

impl BVHAccel {
    /// A built accelerator: the root, when present, is a well-formed tree
    /// covering exactly the arena indices `0..objects.len()`.
    pub open spec fn wf(self) -> bool {
        &&& tris_wf(self.objects@)
        &&& match self.root {
            Option::None => self.objects@.len() == 0,
            Option::Some(root) => {
                &&& node_wf(*root, self.objects@)
                &&& node_idxs(*root).to_multiset() == all_idxs(
                    self.objects@.len() as int,
                ).to_multiset()
            },
        }
    }

    /// Build the hierarchy over the given triangles; an empty list yields
    /// an accelerator with no tree.
    pub fn new(p: Vec<Triangle>) -> (r: BVHAccel)
        requires
            tris_wf(p@),
        ensures
            r.wf(),
            r.objects@ == p@,
    {
        if p.len() == 0 {
            return BVHAccel { objects: p, root: None };
        }
        let n = p.len();
        let mut idxs: Vec<usize> = Vec::new();
        let mut i: usize = 0;
        while i < n
            invariant
                0 <= i <= n,
                idxs@.len() == i,
                forall|k: int| 0 <= k < i ==> idxs@[k] == k as usize,
            decreases n - i,
        {
            idxs.push(i);
            i = i + 1;
        }
        proof {
            assert(idxs@ =~= all_idxs(n as int));
        }
        let root = recursive_build(&p, idxs);
        BVHAccel { objects: p, root: Some(Box::new(root)) }
    }

    /// Nearest hit over the whole arena — what a linear scan returns.
    pub fn intersect(&self, ray: &Ray) -> (r: Option<Intersection>)
        requires
            self.wf(),
            ray.wf(),
        ensures
            r == spec_accel_hit(*self, *ray),
            is_closest_hit(self.objects@, all_idxs(self.objects@.len() as int), *ray, r),
            r matches Some(h) ==> h.wf(),
    {
        match &self.root {
            None => None,
            Some(root) => {
                let res = root.get_intersection(&self.objects, ray);
                proof {
                    lemma_closest_perm(
                        self.objects@,
                        node_idxs(**root),
                        all_idxs(self.objects@.len() as int),
                        *ray,
                        res,
                    );
                }
                res
            },
        }
    }
}

/// The value `BVHAccel::intersect` computes: the root traversal, or no hit
/// from an empty tree.
pub open spec fn spec_accel_hit(b: BVHAccel, r: Ray) -> Option<Intersection> {
    match b.root {
        Option::None => None,
        Option::Some(root) => spec_node_hit(*root, b.objects@, r),
    }
}

/// The value `BVHAccel::sample` computes: the descent-selected triangle's
/// sample, with the density renormalized to the whole covered area.
pub open spec fn spec_accel_sample(b: BVHAccel, p: int, z1: int, z2: int) -> SampleResult {
    let t = crate::triangle::spec_tri_sample(
        b.objects@[node_pick(*b.root->Some_0, p) as int],
        z1,
        z2,
    );
    SampleResult {
        coords: t.coords,
        normal: t.normal,
        pdf: Rat { num: 131072, den: b.spec_area2() as i128 },
    }
}

/// The leaf that the area-weighted descent selects for a threshold `p`:
/// go left while `p` falls short of the left subtree's area, else descend
/// right with the left area spent.
pub open spec fn node_pick(n: BVHBuildNode, p: int) -> usize
    decreases n,
{
    match n.content {
        NodeContent::Leaf { object } => object,
        NodeContent::BiNode { left, right } => {
            if p < left.area2 {
                node_pick(*left, p)
            } else {
                node_pick(*right, p - left.area2)
            }
        },
    }
}

impl BVHBuildNode {
    /// Walk down by the area threshold `p` and draw a point on the selected
    /// triangle with the two unit draws.
    pub fn get_sample(&self, objects: &Vec<Triangle>, p: i128, z1: i64, z2: i64) -> (r:
        crate::intersection::SampleResult)
        requires
            node_wf(*self, objects@),
            0 <= p < self.area2,
            0 <= z1 < crate::vec3::SCALE,
            0 <= z2 < crate::vec3::SCALE,
        ensures
            (node_pick(*self, p as int) as int) < objects@.len(),
            r == crate::triangle::spec_tri_sample(
                objects@[node_pick(*self, p as int) as int],
                z1 as int,
                z2 as int,
            ),
            crate::triangle::sample_matches(
                objects@[node_pick(*self, p as int) as int],
                z1 as int,
                z2 as int,
                r,
            ),
        decreases *self,
    {
        match &self.content {
            NodeContent::Leaf { object } => objects[*object].sample_with(z1, z2),
            NodeContent::BiNode { left, right } => {
                if p < left.area2 {
                    left.get_sample(objects, p, z1, z2)
                } else {
                    right.get_sample(objects, p - left.area2, z1, z2)
                }
            },
        }
    }
}

impl BVHAccel {
    /// Twice the total area covered by the tree, zero when it is empty.
    pub open spec fn spec_area2(self) -> int {
        match self.root {
            Option::None => 0,
            Option::Some(root) => root.area2 as int,
        }
    }

    pub fn area2(&self) -> (r: i128)
        ensures
            r == self.spec_area2(),
    {
        match &self.root {
            None => 0,
            Some(root) => root.area2,
        }
    }

    /// Draw a point on the covered surface: descend by the area threshold,
    /// then sample the selected triangle; the returned density is with
    /// respect to the whole covered area, `1 / total_area`, exactly.
    pub fn sample(&self, p: i128, z1: i64, z2: i64) -> (r: crate::intersection::SampleResult)
        requires
            self.wf(),
            0 <= p < self.spec_area2(),
            0 <= z1 < crate::vec3::SCALE,
            0 <= z2 < crate::vec3::SCALE,
            self.objects@.len() <= 0x8_0000,
        ensures
            r == spec_accel_sample(*self, p as int, z1 as int, z2 as int),
            self.root matches Some(root) ==> {
                &&& (node_pick(*root, p as int) as int) < self.objects@.len()
                &&& crate::triangle::sample_point_matches(
                    self.objects@[node_pick(*root, p as int) as int],
                    z1 as int,
                    z2 as int,
                    r.coords,
                    r.normal,
                )
                &&& r.pdf.num == 131072
                &&& r.pdf.den == self.spec_area2()
                &&& r.pdf.wf()
            },
    {
        match &self.root {
            None => {
                // unreachable: an empty tree has no area to spend
                proof {
                    assert(false);
                }
                crate::intersection::SampleResult {
                    coords: crate::vec3::Vec3 { x: 0, y: 0, z: 0 },
                    normal: crate::vec3::Vec3 { x: 0, y: 0, z: 0 },
                    pdf: Rat { num: 0, den: 1 },
                }
            },
            Some(root) => {
                proof {
                    broadcast use vstd::seq_lib::group_to_multiset_ensures;

                    assert(node_idxs(**root).to_multiset().len() == node_idxs(**root).len());
                    assert(all_idxs(self.objects@.len() as int).to_multiset().len() == all_idxs(
                        self.objects@.len() as int,
                    ).len());
                    lemma_area2_fits(root.area2 as int, node_idxs(**root).len() as int);
                }
                let s = root.get_sample(&self.objects, p, z1, z2);
                crate::intersection::SampleResult {
                    coords: s.coords,
                    normal: s.normal,
                    pdf: Rat::new(131072, root.area2),
                }
            },
        }
    }
}

/// With at most 2^19 triangles, the summed doubled area stays within
/// `RAT_LIMIT`, so it can stand as a rational denominator.
proof fn lemma_area2_fits(a: int, n: int)
    requires
        0 <= a <= (AREA2_LIMIT as int) * n,
        0 <= n <= 0x8_0000,
    ensures
        a <= crate::rat::RAT_LIMIT as int,
{
    assert((AREA2_LIMIT as int) * n <= crate::rat::RAT_LIMIT as int) by (nonlinear_arith)
        requires
            0 <= n <= 0x8_0000,
            AREA2_LIMIT == 0x1000_0000_0000i64,
            crate::rat::RAT_LIMIT == 0x8000_0000_0000_0000i128,
    ;
}

/// Brute-force nearest hit: scan every triangle, keep the closest (ties to
/// the later one). Satisfies the same contract as the hierarchy traversal.
pub fn intersect_brute(objects: &Vec<Triangle>, ray: &Ray) -> (r: Option<Intersection>)
    requires
        tris_wf(objects@),
        ray.wf(),
    ensures
        is_closest_hit(objects@, all_idxs(objects@.len() as int), *ray, r),
        r matches Some(h) ==> h.wf(),
{
    let mut best: Option<Intersection> = None;
    let mut i: usize = 0;
    let n = objects.len();
    while i < n
        invariant
            0 <= i <= n,
            n == objects@.len(),
            tris_wf(objects@),
            ray.wf(),
            is_closest_hit(objects@, all_idxs(i as int), *ray, best),
            best matches Some(h) ==> h.wf(),
        decreases n - i,
    {
        let cur = objects[i].get_intersection(ray);
        let ghost ls = all_idxs(i as int);
        let ghost rs = seq![i];
        proof {
            assert(ls + rs =~= all_idxs(i + 1));
            if cur is Some {
                assert(tri_hits(objects@[rs[0] as int], *ray));
                assert(rle(
                    tri_t_num(objects@[rs[0] as int], *ray),
                    tri_det(objects@[rs[0] as int], *ray),
                    tri_t_num(objects@[rs[0] as int], *ray),
                    tri_det(objects@[rs[0] as int], *ray),
                ));
            }
        }
        best = match (best, cur) {
            (None, None) => {
                proof {
                    assert forall|k: int| 0 <= k < (ls + rs).len() implies !tri_hits(
                        objects@[#[trigger] (ls + rs)[k] as int],
                        *ray,
                    ) by {
                        if k < ls.len() {
                            assert((ls + rs)[k] == ls[k]);
                        } else {
                            assert((ls + rs)[k] == rs[k - ls.len()]);
                        }
                    }
                }
                None
            },
            (None, Some(ch)) => {
                proof {
                    lemma_combine_one_side(objects@, ls, rs, *ray, ch, false);
                }
                Some(ch)
            },
            (Some(bh), None) => {
                proof {
                    lemma_combine_one_side(objects@, ls, rs, *ray, bh, true);
                }
                Some(bh)
            },
            (Some(bh), Some(ch)) => {
                if bh.distance.lt(ch.distance) {
                    proof {
                        lemma_combine_both(objects@, ls, rs, *ray, bh, ch, true);
                    }
                    Some(bh)
                } else {
                    proof {
                        lemma_combine_both(objects@, ls, rs, *ray, bh, ch, false);
                    }
                    Some(ch)
                }
            },
        };
        i = i + 1;
    }
    best
}

/// `is_closest_hit` cares only about which triangles are present: any two
/// index sequences with equal multisets satisfy it for the same result.
pub proof fn lemma_closest_perm(
    objs: Seq<Triangle>,
    s1: Seq<usize>,
    s2: Seq<usize>,
    r: Ray,
    res: Option<Intersection>,
)
    requires
        s1.to_multiset() == s2.to_multiset(),
        is_closest_hit(objs, s1, r, res),
    ensures
        is_closest_hit(objs, s2, r, res),
{
    broadcast use vstd::seq_lib::group_to_multiset_ensures;

    match res {
        Option::None => {
            assert forall|k: int| 0 <= k < s2.len() implies !tri_hits(
                objs[#[trigger] s2[k] as int],
                r,
            ) by {
                assert(s2.contains(s2[k]));
                assert(s2.to_multiset().count(s2[k]) > 0);
                assert(s1.to_multiset().count(s2[k]) > 0);
                assert(s1.contains(s2[k]));
                let k1 = choose|k1: int| 0 <= k1 < s1.len() && s1[k1] == s2[k];
                assert(!tri_hits(objs[s1[k1] as int], r));
            }
        },
        Option::Some(h) => {
            let k0 = choose|k: int|
                0 <= k < s1.len() && tri_hits(objs[#[trigger] s1[k] as int], r) && hit_matches(
                    objs[s1[k] as int],
                    r,
                    h,
                );
            assert(s1.contains(s1[k0]));
            assert(s1.to_multiset().count(s1[k0]) > 0);
            assert(s2.to_multiset().count(s1[k0]) > 0);
            assert(s2.contains(s1[k0]));
            let k2 = choose|k: int| 0 <= k < s2.len() && s2[k] == s1[k0];
            assert(0 <= k2 < s2.len() && tri_hits(objs[s2[k2] as int], r) && hit_matches(
                objs[s2[k2] as int],
                r,
                h,
            ));
            assert forall|k: int|
                0 <= k < s2.len() && tri_hits(objs[#[trigger] s2[k] as int], r) implies rle(
                h.distance.num as int,
                h.distance.den as int,
                tri_t_num(objs[s2[k] as int], r),
                tri_det(objs[s2[k] as int], r),
            ) by {
                assert(s2.contains(s2[k]));
                assert(s2.to_multiset().count(s2[k]) > 0);
                assert(s1.to_multiset().count(s2[k]) > 0);
                assert(s1.contains(s2[k]));
                let k1 = choose|k1: int| 0 <= k1 < s1.len() && s1[k1] == s2[k];
                assert(tri_hits(objs[s1[k1] as int], r));
            }
        },
    }
}

/// Any two results that are both nearest hits over the same triangles agree:
/// both misses, or hits at the same exact distance — in particular the
/// hierarchy traversal and the brute-force scan.
pub proof fn lemma_closest_hit_unique(
    objs: Seq<Triangle>,
    s: Seq<usize>,
    r: Ray,
    a: Option<Intersection>,
    b: Option<Intersection>,
)
    requires
        is_closest_hit(objs, s, r, a),
        is_closest_hit(objs, s, r, b),
    ensures
        (a is Some) == (b is Some),
        a matches Some(ha) ==> b matches Some(hb) ==> crate::rat::req(
            ha.distance.num as int,
            ha.distance.den as int,
            hb.distance.num as int,
            hb.distance.den as int,
        ),
{
    match (a, b) {
        (Option::Some(ha), Option::Some(hb)) => {
            let ka = choose|k: int|
                0 <= k < s.len() && tri_hits(objs[#[trigger] s[k] as int], r) && hit_matches(
                    objs[s[k] as int],
                    r,
                    ha,
                );
            let kb = choose|k: int|
                0 <= k < s.len() && tri_hits(objs[#[trigger] s[k] as int], r) && hit_matches(
                    objs[s[k] as int],
                    r,
                    hb,
                );
            assert(rle(
                ha.distance.num as int,
                ha.distance.den as int,
                tri_t_num(objs[s[kb] as int], r),
                tri_det(objs[s[kb] as int], r),
            ));
            assert(rle(
                hb.distance.num as int,
                hb.distance.den as int,
                tri_t_num(objs[s[ka] as int], r),
                tri_det(objs[s[ka] as int], r),
            ));
        },
        (Option::Some(ha), Option::None) => {
            let ka = choose|k: int|
                0 <= k < s.len() && tri_hits(objs[#[trigger] s[k] as int], r) && hit_matches(
                    objs[s[k] as int],
                    r,
                    ha,
                );
            assert(!tri_hits(objs[s[ka] as int], r));
        },
        (Option::None, Option::Some(hb)) => {
            let kb = choose|k: int|
                0 <= k < s.len() && tri_hits(objs[#[trigger] s[k] as int], r) && hit_matches(
                    objs[s[k] as int],
                    r,
                    hb,
                );
            assert(!tri_hits(objs[s[kb] as int], r));
        },
        (Option::None, Option::None) => {
        },
    }
}

/// Both children found hits: the nearer one (the right on a tie) is the
/// closest over the union.
proof fn lemma_combine_both(
    objs: Seq<Triangle>,
    ls: Seq<usize>,
    rs: Seq<usize>,
    r: Ray,
    lh: Intersection,
    rh: Intersection,
    take_left: bool,
)
    requires
        is_closest_hit(objs, ls, r, Some(lh)),
        is_closest_hit(objs, rs, r, Some(rh)),
        lh.distance.wf(),
        rh.distance.wf(),
        take_left == rlt(
            lh.distance.num as int,
            lh.distance.den as int,
            rh.distance.num as int,
            rh.distance.den as int,
        ),
    ensures
        take_left ==> is_closest_hit(objs, ls + rs, r, Some(lh)),
        !take_left ==> is_closest_hit(objs, ls + rs, r, Some(rh)),
{
    let s = ls + rs;
    let h = if take_left {
        lh
    } else {
        rh
    };
    let o = if take_left {
        rh
    } else {
        lh
    };
    // witness from the winning side
    if take_left {
        let k0 = choose|k: int|
            0 <= k < ls.len() && tri_hits(objs[#[trigger] ls[k] as int], r) && hit_matches(
                objs[ls[k] as int],
                r,
                h,
            );
        assert(s[k0] == ls[k0]);
        assert(0 <= k0 < s.len() && tri_hits(objs[s[k0] as int], r) && hit_matches(
            objs[s[k0] as int],
            r,
            h,
        ));
    } else {
        let k0 = choose|k: int|
            0 <= k < rs.len() && tri_hits(objs[#[trigger] rs[k] as int], r) && hit_matches(
                objs[rs[k] as int],
                r,
                h,
            );
        assert(s[ls.len() + k0] == rs[k0]);
        assert(0 <= ls.len() + k0 < s.len() && tri_hits(objs[s[ls.len() + k0] as int], r)
            && hit_matches(objs[s[ls.len() + k0] as int], r, h));
    }
    // the winner is below the loser, so below everything the loser covers
    assert(rle(
        h.distance.num as int,
        h.distance.den as int,
        o.distance.num as int,
        o.distance.den as int,
    ));
    assert forall|k: int|
        0 <= k < s.len() && tri_hits(objs[#[trigger] s[k] as int], r) implies rle(
        h.distance.num as int,
        h.distance.den as int,
        tri_t_num(objs[s[k] as int], r),
        tri_det(objs[s[k] as int], r),
    ) by {
        if k < ls.len() {
            assert(s[k] == ls[k]);
            if !take_left {
                lemma_rle_trans(
                    h.distance.num as int,
                    h.distance.den as int,
                    lh.distance.num as int,
                    lh.distance.den as int,
                    tri_t_num(objs[s[k] as int], r),
                    tri_det(objs[s[k] as int], r),
                );
            }
        } else {
            assert(s[k] == rs[k - ls.len()]);
            if take_left {
                lemma_rle_trans(
                    h.distance.num as int,
                    h.distance.den as int,
                    rh.distance.num as int,
                    rh.distance.den as int,
                    tri_t_num(objs[s[k] as int], r),
                    tri_det(objs[s[k] as int], r),
                );
            }
        }
    }
}

} // verus!
