//! The bounding-volume hierarchy: a binary tree over the sphere arena,
//! built by choosing a split axis with a surface-area-heuristic sweep and
//! then splitting the axis-sorted primitives at the median.

use vstd::prelude::*;

use crate::aabb::{s_surface_area, s_surrounding, Aabb, BoxI};
use crate::fixed::{fx_add, fx_add_v, fx_div, fx_div_v, fx_mul, fx_mul_v, fx_of, fx_of_v, FX_MAX};
use crate::hit::{opt_hit_v, HitRecord, HitS};
use crate::ray::Ray;
use crate::sphere::{s_sphere_box, s_sphere_hit, Sphere};
use crate::vec3::s_axis;

verus! {

/// A child of a tree node: either a leaf primitive, named by its index
/// in the sphere arena (so a primitive shared by both children of a
/// degenerate node is never duplicated), or a subtree.
pub enum BvhChild {
    Prim(usize),
    Node(Box<BvhNode>),
}

pub struct BvhNode {
    pub left: BvhChild,
    pub right: BvhChild,
    pub bounding_box: Aabb,
}

/// Indices of the primitives under a child, in tree order.
pub open spec fn child_leaves(c: BvhChild) -> Seq<int>
    decreases c,
{
    match c {
        BvhChild::Prim(i) => seq![i as int],
        BvhChild::Node(n) => node_leaves(*n),
    }
}

/// Indices of the primitives under a node, in tree order.
pub open spec fn node_leaves(n: BvhNode) -> Seq<int>
    decreases n,
{
    child_leaves(n.left) + child_leaves(n.right)
}

/// The box a child is accounted with: a leaf's sphere box, or the box a
/// subtree stored at construction.
pub open spec fn child_box(c: BvhChild, spheres: Seq<Sphere>) -> BoxI {
    match c {
        BvhChild::Prim(i) => s_sphere_box(spheres[i as int]),
        BvhChild::Node(n) => n.bounding_box.bx(),
    }
}

pub open spec fn child_wf(c: BvhChild, spheres: Seq<Sphere>) -> bool
    decreases c,
{
    match c {
        BvhChild::Prim(i) => (i as int) < spheres.len(),
        BvhChild::Node(n) => node_wf(*n, spheres),
    }
}

/// Every leaf index is in bounds and every node's box is exactly the
/// union of its children's boxes, computed once at construction.
pub open spec fn node_wf(n: BvhNode, spheres: Seq<Sphere>) -> bool
    decreases n,
{
    &&& child_wf(n.left, spheres)
    &&& child_wf(n.right, spheres)
    &&& n.bounding_box.bx() == s_surrounding(
        child_box(n.left, spheres),
        child_box(n.right, spheres),
    )
}

/// Traversal semantics of a child.
pub open spec fn s_child_hit(
    c: BvhChild,
    spheres: Seq<Sphere>,
    ray: Ray,
    t_min: int,
    t_max: int,
) -> Option<HitS>
    decreases c,
{
    match c {
        BvhChild::Prim(i) => s_sphere_hit(spheres[i as int], ray, t_min, t_max),
        BvhChild::Node(n) => s_bvh_hit(*n, spheres, ray, t_min, t_max),
    }
}

/// Traversal semantics of a node: nothing when the node's box misses the
/// interval; otherwise the left child over the full interval, then the
/// right child over the interval shrunk to the left hit's time, the
/// right result winning when both are present (it is closer or equal).
pub open spec fn s_bvh_hit(n: BvhNode, spheres: Seq<Sphere>, ray: Ray, t_min: int, t_max: int) -> Option<HitS>
    decreases n,
{
    if !crate::aabb::s_aabb_hit(
        n.bounding_box.bx(),
        ray.origin_v(),
        ray.inv_direction_v(),
        t_min,
        t_max,
    ) {
        Option::None
    } else {
        let hit_left = s_child_hit(n.left, spheres, ray, t_min, t_max);
        let hit_right = match hit_left {
            Option::None => s_child_hit(n.right, spheres, ray, t_min, t_max),
            Option::Some(h) => s_child_hit(n.right, spheres, ray, t_min, h.time),
        };
        match hit_right {
            Option::Some(h) => Option::Some(h),
            Option::None => hit_left,
        }
    }
}

/// `v` occurs among the indices.
pub open spec fn has_idx(s: Seq<usize>, v: int) -> bool {
    exists|j: int| 0 <= j < s.len() && s[j] as int == v
}

/// Sort key: the minimum coordinate of a primitive's box on an axis.
pub open spec fn s_key(spheres: Seq<Sphere>, idx: usize, axis: int) -> int {
    s_axis(s_sphere_box(spheres[idx as int]).min, axis)
}

/// SAH cost of a candidate split: the count-weighted surface areas of
/// the two sides, divided by the total surface area.
pub open spec fn s_sah_cost(lb: BoxI, rb: BoxI, lc: int, rc: int) -> int {
    let la = s_surface_area(lb);
    let ra = s_surface_area(rb);
    fx_div_v(fx_add_v(fx_mul_v(fx_of_v(lc), la), fx_mul_v(fx_of_v(rc), ra)), fx_add_v(la, ra))
}

/// `s` is `objects` rearranged into nondecreasing box-minimum order on
/// `axis`.
pub open spec fn s_arrangement(
    spheres: Seq<Sphere>,
    objects: Seq<usize>,
    s: Seq<usize>,
    axis: int,
) -> bool {
    &&& s.len() == objects.len()
    &&& s.to_multiset() == objects.to_multiset()
    &&& forall|k: int| 0 <= k < s.len() ==> ((#[trigger] s[k]) as int) < spheres.len()
    &&& forall|k1: int, k2: int|
        0 <= k1 < k2 < s.len() ==> s_key(spheres, s[k1], axis) <= s_key(spheres, s[k2], axis)
}

/// Cost of splitting arrangement `s` before position `i`, each side
/// rated by the box spanned by its first and last member.
pub open spec fn s_candidate_cost(spheres: Seq<Sphere>, s: Seq<usize>, i: int) -> int
    recommends
        1 <= i < s.len(),
{
    s_sah_cost(
        s_surrounding(
            s_sphere_box(spheres[s[0] as int]),
            s_sphere_box(spheres[s[i - 1] as int]),
        ),
        s_surrounding(
            s_sphere_box(spheres[s[i] as int]),
            s_sphere_box(spheres[s[s.len() - 1] as int]),
        ),
        i,
        s.len() - i,
    )
}

pub open spec fn s_axis_pick(s0: Seq<usize>, s1: Seq<usize>, s2: Seq<usize>, a: int) -> Seq<
    usize,
> {
    if a == 0 {
        s0
    } else if a == 1 {
        s1
    } else {
        s2
    }
}

/// Position `i` on axis `r` costs no more than any candidate split on
/// any axis, the axes arranged as `s0, s1, s2`.
pub open spec fn s_cost_dominates(
    spheres: Seq<Sphere>,
    s0: Seq<usize>,
    s1: Seq<usize>,
    s2: Seq<usize>,
    r: int,
    i: int,
) -> bool {
    forall|a: int, j: int|
        0 <= a < 3 && 1 <= j < s0.len() ==> s_candidate_cost(
            spheres,
            s_axis_pick(s0, s1, s2, r),
            i,
        ) <= #[trigger] s_candidate_cost(spheres, s_axis_pick(s0, s1, s2, a), j)
}

/// Axis `r` owns a candidate split at least as cheap as every candidate
/// split on every axis: the surface-area-heuristic axis choice.
pub open spec fn s_best_split_axis(spheres: Seq<Sphere>, objects: Seq<usize>, r: int) -> bool {
    exists|s0: Seq<usize>, s1: Seq<usize>, s2: Seq<usize>|
        #![trigger s_arrangement(spheres, objects, s0, 0), s_arrangement(spheres, objects, s1, 1), s_arrangement(spheres, objects, s2, 2)]
        {
            &&& s_arrangement(spheres, objects, s0, 0)
            &&& s_arrangement(spheres, objects, s1, 1)
            &&& s_arrangement(spheres, objects, s2, 2)
            &&& exists|i: int|
                1 <= i < s0.len() && #[trigger] s_cost_dominates(spheres, s0, s1, s2, r, i)
        }
}

/// For a two-primitive node, some axis orders the children: the
/// primitive with the strictly smaller box minimum goes left, otherwise
/// the pair is swapped.
pub open spec fn s_pair_ordered(
    spheres: Seq<Sphere>,
    o0: usize,
    o1: usize,
    left: BvhChild,
    right: BvhChild,
) -> bool {
    exists|axis: int|
        0 <= axis < 3 && (if #[trigger] s_key(spheres, o0, axis) < s_key(spheres, o1, axis) {
            left == BvhChild::Prim(o0) && right == BvhChild::Prim(o1)
        } else {
            left == BvhChild::Prim(o1) && right == BvhChild::Prim(o0)
        })
}

/// A node over three or more primitives splits some axis-sorted
/// arrangement of them at the median: the subtree leaf sets are exactly
/// the two halves.
pub open spec fn s_median_split(
    spheres: Seq<Sphere>,
    objects: Seq<usize>,
    left: BvhChild,
    right: BvhChild,
) -> bool {
    exists|axis: int, s: Seq<usize>|
        #![trigger s_arrangement(spheres, objects, s, axis)]
        {
            &&& 0 <= axis < 3
            &&& s_arrangement(spheres, objects, s, axis)
            &&& (left matches BvhChild::Node(l) && (forall|v: int|
                node_leaves(*l).contains(v) <==> has_idx(s.subrange(0, s.len() as int / 2), v)))
            &&& (right matches BvhChild::Node(rt) && (forall|v: int|
                node_leaves(*rt).contains(v) <==> has_idx(
                    s.subrange(s.len() as int / 2, s.len() as int),
                    v,
                )))
        }
}

/// No candidate cost exceeds the range ceiling: the cost is a division
/// result, and division saturates.
proof fn lemma_candidate_cost_bounds(spheres: Seq<Sphere>, s: Seq<usize>, i: int)
    ensures
        s_candidate_cost(spheres, s, i) <= FX_MAX as int,
{
    let lb = s_surrounding(
        s_sphere_box(spheres[s[0] as int]),
        s_sphere_box(spheres[s[i - 1] as int]),
    );
    let rb = s_surrounding(
        s_sphere_box(spheres[s[i] as int]),
        s_sphere_box(spheres[s[s.len() - 1] as int]),
    );
    crate::fixed::lemma_fx_div_v_bounds(
        fx_add_v(
            fx_mul_v(fx_of_v(i), s_surface_area(lb)),
            fx_mul_v(fx_of_v(s.len() - i), s_surface_area(rb)),
        ),
        fx_add_v(s_surface_area(lb), s_surface_area(rb)),
    );
}

/// Membership in a concatenation is membership in either part.
proof fn lemma_concat_contains(s1: Seq<int>, s2: Seq<int>)
    ensures
        forall|v: int| #[trigger] (s1 + s2).contains(v) <==> (s1.contains(v) || s2.contains(v)),
{
    assert forall|v: int| #[trigger] (s1 + s2).contains(v) implies (s1.contains(v) || s2.contains(
        v,
    )) by {
        let k = choose|k: int| 0 <= k < (s1 + s2).len() && (s1 + s2)[k] == v;
        if k < s1.len() {
            assert(s1[k] == v);
        } else {
            assert(s2[k - s1.len()] == v);
        }
    }
    assert forall|v: int| (s1.contains(v) || s2.contains(v)) implies #[trigger] (s1
        + s2).contains(v) by {
        if s1.contains(v) {
            let k = choose|k: int| 0 <= k < s1.len() && s1[k] == v;
            assert((s1 + s2)[k] == v);
        } else {
            let k = choose|k: int| 0 <= k < s2.len() && s2[k] == v;
            assert((s1 + s2)[k + s1.len()] == v);
        }
    }
}

/// Swapping two positions leaves the multiset of indices unchanged.
proof fn lemma_swap_multiset(s1: Seq<usize>, s2: Seq<usize>, i: int, j: int)
    requires
        0 <= i < s1.len(),
        0 <= j < s1.len(),
        s2 == s1.update(i, s1[j]).update(j, s1[i]),
    ensures
        s2.to_multiset() == s1.to_multiset(),
{
    broadcast use vstd::seq_lib::to_multiset_update;
    broadcast use vstd::seq_lib::group_to_multiset_ensures;

    let mid = s1.update(i, s1[j]);
    assert(s1.contains(s1[i]));
    assert(mid.to_multiset() == s1.to_multiset().insert(s1[j]).remove(s1[i]));
    assert(mid[j] == s1[j]);
    assert(s2.to_multiset() == mid.to_multiset().insert(s1[i]).remove(s1[j]));
    assert(s2.to_multiset() =~= s1.to_multiset());
}

/// Swapping two positions neither adds nor removes an index value.
proof fn lemma_swap_has_idx(s1: Seq<usize>, s2: Seq<usize>, i: int, j: int)
    requires
        0 <= i < s1.len(),
        0 <= j < s1.len(),
        s2 == s1.update(i, s1[j]).update(j, s1[i]),
    ensures
        forall|v: int| has_idx(s2, v) <==> has_idx(s1, v),
{
    assert forall|v: int| has_idx(s2, v) implies has_idx(s1, v) by {
        let k = choose|k: int| 0 <= k < s2.len() && s2[k] as int == v;
        if k == j {
            assert(s1[i] as int == v);
        } else if k == i {
            assert(s1[j] as int == v);
        } else {
            assert(s1[k] as int == v);
        }
    }
    assert forall|v: int| has_idx(s1, v) implies has_idx(s2, v) by {
        let k = choose|k: int| 0 <= k < s1.len() && s1[k] as int == v;
        if k == i {
            assert(s2[j] as int == v);
        } else if k == j {
            if i == j {
                assert(s2[j] as int == v);
            } else {
                assert(s2[i] as int == v);
            }
        } else {
            assert(s2[k] as int == v);
        }
    }
}

/// The minimum box coordinate of primitive `idx` on `axis`.
fn box_min_axis(spheres: &Vec<Sphere>, idx: usize, axis: usize) -> (r: i64)
    requires
        (idx as int) < spheres@.len(),
        axis < 3,
    ensures
        r as int == s_key(spheres@, idx, axis as int),
{
    let b = spheres[idx].bounding_box().unwrap();
    b.min().axis(axis)
}

/// Selection sort of primitive indices by box minimum along an axis.
fn sort_by_box_min(spheres: &Vec<Sphere>, objs: &mut Vec<usize>, axis: usize)
    requires
        axis < 3,
        forall|k: int| 0 <= k < old(objs)@.len() ==> (old(objs)@[k] as int) < spheres@.len(),
    ensures
        final(objs)@.len() == old(objs)@.len(),
        final(objs)@.to_multiset() == old(objs)@.to_multiset(),
        forall|k: int| 0 <= k < final(objs)@.len() ==> (final(objs)@[k] as int) < spheres@.len(),
        forall|k1: int, k2: int|
            0 <= k1 < k2 < final(objs)@.len() ==> s_key(spheres@, final(objs)@[k1], axis as int)
                <= s_key(spheres@, final(objs)@[k2], axis as int),
        forall|v: int| has_idx(final(objs)@, v) <==> has_idx(old(objs)@, v),
{
    let n = objs.len();
    let mut i: usize = 0;
    while i < n
        invariant
            axis < 3,
            n == objs@.len(),
            0 <= i <= n,
            forall|k: int| 0 <= k < n ==> (objs@[k] as int) < spheres@.len(),
            forall|k1: int, k2: int|
                0 <= k1 < k2 < i ==> s_key(spheres@, objs@[k1], axis as int) <= s_key(
                    spheres@,
                    objs@[k2],
                    axis as int,
                ),
            forall|k1: int, k2: int|
                0 <= k1 < i <= k2 < n ==> s_key(spheres@, objs@[k1], axis as int) <= s_key(
                    spheres@,
                    objs@[k2],
                    axis as int,
                ),
            forall|v: int| has_idx(objs@, v) <==> has_idx(old(objs)@, v),
            objs@.to_multiset() == old(objs)@.to_multiset(),
        decreases n - i,
    {
        let mut m: usize = i;
        let mut j: usize = i + 1;
        while j < n
            invariant
                axis < 3,
                n == objs@.len(),
                0 <= i <= m < j <= n,
                forall|k: int| 0 <= k < n ==> (objs@[k] as int) < spheres@.len(),
                forall|k: int|
                    i <= k < j ==> s_key(spheres@, objs@[m as int], axis as int) <= s_key(
                        spheres@,
                        objs@[k],
                        axis as int,
                    ),
            decreases n - j,
        {
            if box_min_axis(spheres, objs[j], axis) < box_min_axis(spheres, objs[m], axis) {
                m = j;
            }
            j = j + 1;
        }
        let ghost before = objs@;
        let vi = objs[i];
        let vm = objs[m];
        objs[i] = vm;
        objs[m] = vi;
        proof {
            lemma_swap_has_idx(before, objs@, i as int, m as int);
            lemma_swap_multiset(before, objs@, i as int, m as int);
        }
        i = i + 1;
    }
}

/// Split the (sorted) index list at the median.
fn split_objects(objects: &Vec<usize>) -> (r: (Vec<usize>, Vec<usize>))
    requires
        objects@.len() >= 2,
    ensures
        r.0@ == objects@.subrange(0, objects@.len() as int / 2),
        r.1@ == objects@.subrange(objects@.len() as int / 2, objects@.len() as int),
{
    let n = objects.len();
    let mid = n / 2;
    let mut left_objects: Vec<usize> = Vec::new();
    let mut right_objects: Vec<usize> = Vec::new();
    let mut i: usize = 0;
    while i < mid
        invariant
            mid <= n == objects@.len(),
            0 <= i <= mid,
            left_objects@ == objects@.subrange(0, i as int),
        decreases mid - i,
    {
        left_objects.push(objects[i]);
        proof {
            assert(left_objects@ =~= objects@.subrange(0, i + 1));
        }
        i = i + 1;
    }
    let mut j: usize = mid;
    while j < n
        invariant
            mid <= n == objects@.len(),
            mid <= j <= n,
            right_objects@ == objects@.subrange(mid as int, j as int),
        decreases n - j,
    {
        right_objects.push(objects[j]);
        proof {
            assert(right_objects@ =~= objects@.subrange(mid as int, j + 1));
        }
        j = j + 1;
    }
    (left_objects, right_objects)
}

/// The box a child is accounted with, computed from the arena.
fn child_box_of(spheres: &Vec<Sphere>, c: &BvhChild) -> (r: Aabb)
    requires
        child_wf(*c, spheres@),
    ensures
        r.bx() == child_box(*c, spheres@),
{
    match c {
        BvhChild::Prim(i) => spheres[*i].bounding_box().unwrap(),
        BvhChild::Node(n) => n.bounding_box,
    }
}

impl BvhNode {
    /// SAH cost of a candidate split.
    fn calculate_sah_cost(
        left_box: Aabb,
        right_box: Aabb,
        left_count: usize,
        right_count: usize,
    ) -> (r: i64)
        requires
            left_count < 0x1000000,
            right_count < 0x1000000,
        ensures
            r as int == s_sah_cost(
                left_box.bx(),
                right_box.bx(),
                left_count as int,
                right_count as int,
            ),
    {
        let left_surface_area = left_box.surface_area();
        let right_surface_area = right_box.surface_area();
        let total_surface_area = fx_add(left_surface_area, right_surface_area);
        fx_div(
            fx_add(
                fx_mul(fx_of(left_count as i64), left_surface_area),
                fx_mul(fx_of(right_count as i64), right_surface_area),
            ),
            total_surface_area,
        )
    }

    /// Sweep every split position on each axis and keep the axis whose
    /// best split has the lowest SAH cost. The cost model rates each
    /// side by the box spanned by its first and last member (in axis
    /// order), a deliberate approximation. The chosen axis carries a
    /// candidate split at least as cheap as every candidate on every
    /// axis; with fewer than two primitives there is no candidate and
    /// the first axis is returned.
    #[verifier::rlimit(100)]
    fn find_best_split_axis(spheres: &Vec<Sphere>, objects: &Vec<usize>) -> (r: usize)
        requires
            objects@.len() < 0x1000000,
            forall|k: int| 0 <= k < objects@.len() ==> (objects@[k] as int) < spheres@.len(),
        ensures
            r < 3,
            objects@.len() < 2 ==> r == 0,
            objects@.len() >= 2 ==> s_best_split_axis(spheres@, objects@, r as int),
    {
        let mut best_axis: usize = 0;
        let mut best_cost: i64 = FX_MAX;
        let n = objects.len();
        let ghost mut arrs: Seq<Seq<usize>> = Seq::empty();
        let mut axis: usize = 0;
        while axis < 3
            invariant
                n == objects@.len() < 0x1000000,
                forall|k: int| 0 <= k < objects@.len() ==> (objects@[k] as int) < spheres@.len(),
                best_axis < 3,
                axis <= 3,
                axis == 0 ==> best_axis == 0 && best_cost == FX_MAX,
                arrs.len() == axis as int,
                forall|a: int|
                    0 <= a < axis as int ==> s_arrangement(spheres@, objects@, #[trigger] arrs[a], a),
                n < 2 ==> best_axis == 0,
                n >= 2 && axis > 0 ==> {
                    &&& (best_axis as int) < arrs.len()
                    &&& exists|q: int|
                        1 <= q < n && #[trigger] s_candidate_cost(
                            spheres@,
                            arrs[best_axis as int],
                            q,
                        ) <= best_cost as int
                    &&& forall|a: int, j: int|
                        0 <= a < axis as int && 1 <= j < n ==> best_cost as int
                            <= #[trigger] s_candidate_cost(spheres@, arrs[a], j)
                },
            decreases 3 - axis,
        {
            let mut sorted_objects = objects.clone();
            proof {
                assert(sorted_objects@ =~= objects@);
            }
            sort_by_box_min(spheres, &mut sorted_objects, axis);
            proof {
                let prev = arrs;
                arrs = arrs.push(sorted_objects@);
                assert(forall|a: int| 0 <= a < prev.len() ==> arrs[a] == #[trigger] prev[a]);
                assert(arrs[axis as int] == sorted_objects@);
                assert(s_arrangement(spheres@, objects@, sorted_objects@, axis as int));
                assert forall|a: int| 0 <= a <= axis as int implies s_arrangement(
                    spheres@,
                    objects@,
                    #[trigger] arrs[a],
                    a,
                ) by {
                    if a < axis as int {
                        assert(s_arrangement(spheres@, objects@, prev[a], a));
                    }
                }
                if n >= 2 {
                    if axis == 0 {
                        lemma_candidate_cost_bounds(spheres@, sorted_objects@, 1);
                        assert(s_candidate_cost(spheres@, arrs[0], 1) <= best_cost as int);
                    } else {
                        let q0 = choose|q: int|
                            1 <= q < n && #[trigger] s_candidate_cost(
                                spheres@,
                                prev[best_axis as int],
                                q,
                            ) <= best_cost as int;
                        assert(s_candidate_cost(spheres@, arrs[best_axis as int], q0)
                            <= best_cost as int);
                        assert forall|a: int, j: int|
                            0 <= a < axis as int && 1 <= j < n implies best_cost as int
                            <= #[trigger] s_candidate_cost(spheres@, arrs[a], j) by {
                            assert(best_cost as int <= s_candidate_cost(spheres@, prev[a], j));
                        }
                    }
                }
            }
            let mut i: usize = 1;
            while i < n
                invariant
                    axis < 3,
                    n == objects@.len() < 0x1000000,
                    n == sorted_objects@.len(),
                    forall|k: int|
                        0 <= k < sorted_objects@.len() ==> (sorted_objects@[k] as int)
                            < spheres@.len(),
                    1 <= i,
                    n >= 2 ==> i <= n,
                    best_axis < 3,
                    n < 2 ==> best_axis == 0,
                    arrs.len() == axis + 1,
                    arrs[axis as int] == sorted_objects@,
                    forall|a: int|
                        0 <= a <= axis as int ==> s_arrangement(
                            spheres@,
                            objects@,
                            #[trigger] arrs[a],
                            a,
                        ),
                    n >= 2 ==> {
                        &&& (best_axis as int) < arrs.len()
                        &&& exists|q: int|
                            1 <= q < n && #[trigger] s_candidate_cost(
                                spheres@,
                                arrs[best_axis as int],
                                q,
                            ) <= best_cost as int
                        &&& forall|a: int, j: int|
                            0 <= a < axis as int && 1 <= j < n ==> best_cost as int
                                <= #[trigger] s_candidate_cost(spheres@, arrs[a], j)
                        &&& forall|j: int|
                            1 <= j < i as int ==> best_cost as int <= #[trigger] s_candidate_cost(
                                spheres@,
                                arrs[axis as int],
                                j,
                            )
                    },
                decreases n - i,
            {
                let left_box = Aabb::surrounding_box(
                    spheres[sorted_objects[0]].bounding_box().unwrap(),
                    spheres[sorted_objects[i - 1]].bounding_box().unwrap(),
                ).unwrap();
                let right_box = Aabb::surrounding_box(
                    spheres[sorted_objects[i]].bounding_box().unwrap(),
                    spheres[sorted_objects[n - 1]].bounding_box().unwrap(),
                ).unwrap();
                let cost = Self::calculate_sah_cost(left_box, right_box, i, n - i);
                proof {
                    assert(cost as int == s_candidate_cost(spheres@, sorted_objects@, i as int));
                }
                if cost < best_cost {
                    best_axis = axis;
                    best_cost = cost;
                    proof {
                        assert(s_candidate_cost(spheres@, arrs[best_axis as int], i as int)
                            <= best_cost as int);
                    }
                }
                i = i + 1;
            }
            axis = axis + 1;
        }
        proof {
            if n >= 2 {
                let q = choose|q: int|
                    1 <= q < n && #[trigger] s_candidate_cost(spheres@, arrs[best_axis as int], q)
                        <= best_cost as int;
                let s0 = arrs[0];
                let s1 = arrs[1];
                let s2 = arrs[2];
                assert(s_axis_pick(s0, s1, s2, best_axis as int) == arrs[best_axis as int]);
                assert forall|a: int, j: int| 0 <= a < 3 && 1 <= j < s0.len() implies s_candidate_cost(
                    spheres@,
                    s_axis_pick(s0, s1, s2, best_axis as int),
                    q,
                ) <= #[trigger] s_candidate_cost(spheres@, s_axis_pick(s0, s1, s2, a), j) by {
                    assert(s_axis_pick(s0, s1, s2, a) == arrs[a]);
                    assert(best_cost as int <= s_candidate_cost(spheres@, arrs[a], j));
                }
                assert(s_cost_dominates(spheres@, s0, s1, s2, best_axis as int, q));
                assert(s_best_split_axis(spheres@, objects@, best_axis as int));
            }
        }
        best_axis
    }

    /// Build a tree over the given primitive indices. One primitive
    /// becomes a degenerate node whose children alias it; two are
    /// ordered on the chosen axis; three or more are axis-sorted and
    /// split at the median, recursing on each half. The count bound
    /// keeps the primitive counts in the cost sweep exactly
    /// representable as scalars.
    pub fn new(spheres: &Vec<Sphere>, objects: Vec<usize>) -> (r: BvhNode)
        requires
            1 <= objects@.len() < 0x1000000,
            forall|k: int| 0 <= k < objects@.len() ==> (objects@[k] as int) < spheres@.len(),
        ensures
            node_wf(r, spheres@),
            forall|v: int| node_leaves(r).contains(v) <==> has_idx(objects@, v),
            objects@.len() == 1 ==> r.left == BvhChild::Prim(objects@[0]) && r.right
                == BvhChild::Prim(objects@[0]),
            objects@.len() == 2 ==> s_pair_ordered(
                spheres@,
                objects@[0],
                objects@[1],
                r.left,
                r.right,
            ),
            objects@.len() >= 3 ==> s_median_split(spheres@, objects@, r.left, r.right),
        decreases objects@.len(),
    {
        let ghost orig = objects@;
        let axis = Self::find_best_split_axis(spheres, &objects);
        let object_span = objects.len();

        let left: BvhChild;
        let right: BvhChild;
        if object_span == 1 {
            left = BvhChild::Prim(objects[0]);
            right = BvhChild::Prim(objects[0]);
            proof {
                let x = orig[0] as int;
                lemma_concat_contains(child_leaves(left), child_leaves(right));
                assert forall|v: int|
                    (child_leaves(left) + child_leaves(right)).contains(v) <==> has_idx(
                        orig,
                        v,
                    ) by {
                    assert(child_leaves(left) == seq![x]);
                    assert(seq![x][0] == x);
                    if has_idx(orig, v) {
                        let j = choose|j: int| 0 <= j < orig.len() && orig[j] as int == v;
                        assert(child_leaves(left).contains(v));
                    }
                }
            }
        } else if object_span == 2 {
            let ka = box_min_axis(spheres, objects[0], axis);
            let kb = box_min_axis(spheres, objects[1], axis);
            if ka < kb {
                left = BvhChild::Prim(objects[0]);
                right = BvhChild::Prim(objects[1]);
            } else {
                left = BvhChild::Prim(objects[1]);
                right = BvhChild::Prim(objects[0]);
            }
            proof {
                assert(s_pair_ordered(spheres@, orig[0], orig[1], left, right)) by {
                    assert(0 <= (axis as int) < 3);
                    assert(ka as int == s_key(spheres@, orig[0], axis as int));
                    assert(kb as int == s_key(spheres@, orig[1], axis as int));
                }
                let a = orig[0] as int;
                let b = orig[1] as int;
                lemma_concat_contains(child_leaves(left), child_leaves(right));
                assert forall|v: int|
                    (child_leaves(left) + child_leaves(right)).contains(v) <==> has_idx(
                        orig,
                        v,
                    ) by {
                    assert(seq![a][0] == a);
                    assert(seq![b][0] == b);
                    if has_idx(orig, v) {
                        let j = choose|j: int| 0 <= j < orig.len() && orig[j] as int == v;
                        assert(v == a || v == b);
                    }
                    if (child_leaves(left) + child_leaves(right)).contains(v) {
                        assert(v == a || v == b);
                        if v == a {
                            assert(orig[0] as int == v);
                        } else {
                            assert(orig[1] as int == v);
                        }
                    }
                }
            }
        } else {
            let mut sorted_objects = objects;
            sort_by_box_min(spheres, &mut sorted_objects, axis);
            let (left_objects, right_objects) = split_objects(&sorted_objects);
            proof {
                let so = sorted_objects@;
                let mid = so.len() as int / 2;
                assert forall|v: int|
                    has_idx(so, v) <==> (has_idx(so.subrange(0, mid), v) || has_idx(
                        so.subrange(mid, so.len() as int),
                        v,
                    )) by {
                    if has_idx(so, v) {
                        let k = choose|k: int| 0 <= k < so.len() && so[k] as int == v;
                        if k < mid {
                            assert(so.subrange(0, mid)[k] as int == v);
                        } else {
                            assert(so.subrange(mid, so.len() as int)[k - mid] as int == v);
                        }
                    }
                    if has_idx(so.subrange(0, mid), v) {
                        let k = choose|k: int|
                            0 <= k < mid && so.subrange(0, mid)[k] as int == v;
                        assert(so[k] as int == v);
                    }
                    if has_idx(so.subrange(mid, so.len() as int), v) {
                        let k = choose|k: int|
                            0 <= k < so.len() - mid && so.subrange(mid, so.len() as int)[k] as int
                                == v;
                        assert(so[k + mid] as int == v);
                    }
                }
            }
            let ghost lo_v = left_objects@;
            let ghost ro_v = right_objects@;
            left = BvhChild::Node(Box::new(BvhNode::new(spheres, left_objects)));
            right = BvhChild::Node(Box::new(BvhNode::new(spheres, right_objects)));
            proof {
                assert(s_arrangement(spheres@, orig, sorted_objects@, axis as int));
                assert(s_median_split(spheres@, orig, left, right));
                lemma_concat_contains(child_leaves(left), child_leaves(right));
                assert forall|v: int|
                    (child_leaves(left) + child_leaves(right)).contains(v) <==> has_idx(
                        orig,
                        v,
                    ) by {
                    assert(child_leaves(left).contains(v) <==> has_idx(lo_v, v));
                    assert(child_leaves(right).contains(v) <==> has_idx(ro_v, v));
                }
            }
        }

        let box_left = child_box_of(spheres, &left);
        let box_right = child_box_of(spheres, &right);
        let bounding_box = Aabb::surrounding_box(box_left, box_right).unwrap();
        let node = BvhNode { left, right, bounding_box };
        proof {
            assert(node_leaves(node) == child_leaves(node.left) + child_leaves(node.right));
        }
        node
    }

    pub fn bounding_box(&self) -> (r: Option<Aabb>)
        ensures
            r == Option::Some(self.bounding_box),
    {
        Option::Some(self.bounding_box)
    }

    /// Traverse the tree for the nearest hit in `[t_min, t_max]`.
    pub fn hit(&self, spheres: &Vec<Sphere>, ray: &Ray, t_min: i64, t_max: i64) -> (r:
        Option<HitRecord>)
        requires
            node_wf(*self, spheres@),
        ensures
            opt_hit_v(r) == s_bvh_hit(*self, spheres@, *ray, t_min as int, t_max as int),
        decreases *self,
    {
        if !self.bounding_box.hit(ray, t_min, t_max) {
            return Option::None;
        }
        let hit_left = child_hit(&self.left, spheres, ray, t_min, t_max);
        let hit_right = match &hit_left {
            Option::None => child_hit(&self.right, spheres, ray, t_min, t_max),
            Option::Some(h) => child_hit(&self.right, spheres, ray, t_min, h.time),
        };
        if hit_right.is_some() {
            hit_right
        } else {
            hit_left
        }
    }
}

/// `h` is the record some sphere of the arena produces at its own time.
pub open spec fn s_record_from(spheres: Seq<Sphere>, ray: Ray, h: HitS) -> bool {
    exists|i: int|
        0 <= i < spheres.len() && h == crate::sphere::s_sphere_record(spheres[i], ray, h.time)
}

/// Any hit a child reports is the record of some sphere of the arena.
pub proof fn lemma_child_hit_source(
    c: BvhChild,
    spheres: Seq<Sphere>,
    ray: Ray,
    t_min: int,
    t_max: int,
)
    requires
        child_wf(c, spheres),
    ensures
        s_child_hit(c, spheres, ray, t_min, t_max) matches Some(h) ==> s_record_from(
            spheres,
            ray,
            h,
        ),
    decreases c,
{
    match c {
        BvhChild::Prim(i) => {
            if s_child_hit(c, spheres, ray, t_min, t_max) matches Some(h) {
                assert(0 <= (i as int) < spheres.len());
            }
        },
        BvhChild::Node(n) => {
            lemma_bvh_hit_source(*n, spheres, ray, t_min, t_max);
        },
    }
}

/// Any hit a node reports is the record of some sphere of the arena.
pub proof fn lemma_bvh_hit_source(
    n: BvhNode,
    spheres: Seq<Sphere>,
    ray: Ray,
    t_min: int,
    t_max: int,
)
    requires
        node_wf(n, spheres),
    ensures
        s_bvh_hit(n, spheres, ray, t_min, t_max) matches Some(h) ==> s_record_from(
            spheres,
            ray,
            h,
        ),
    decreases n,
{
    lemma_child_hit_source(n.left, spheres, ray, t_min, t_max);
    lemma_child_hit_source(n.right, spheres, ray, t_min, t_max);
    match s_child_hit(n.left, spheres, ray, t_min, t_max) {
        Option::Some(h) => {
            lemma_child_hit_source(n.right, spheres, ray, t_min, h.time);
        },
        Option::None => {},
    }
}

/// Query one child: a leaf defers to its sphere, a subtree recurses.
fn child_hit(c: &BvhChild, spheres: &Vec<Sphere>, ray: &Ray, t_min: i64, t_max: i64) -> (r:
    Option<HitRecord>)
    requires
        child_wf(*c, spheres@),
    ensures
        opt_hit_v(r) == s_child_hit(*c, spheres@, *ray, t_min as int, t_max as int),
    decreases *c,
{
    match c {
        BvhChild::Prim(i) => spheres[*i].hit(ray, t_min, t_max),
        BvhChild::Node(n) => n.hit(spheres, ray, t_min, t_max),
    }
}

} // verus!
