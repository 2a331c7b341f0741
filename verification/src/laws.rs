//! Proofs relating the accelerated traversal to the brute-force scan:
//! whenever the boxes of a tree admit every hit of the primitives under
//! them, the tree and the scan report the same nearest hit time, for
//! every ray and every interval.

use vstd::prelude::*;

use crate::aabb::s_aabb_hit;
use crate::bvh::{
    child_leaves, child_wf, node_leaves, node_wf, s_bvh_hit, s_child_hit, BvhChild, BvhNode,
};
use crate::hit::{s_scan_from, s_scan_hit, HitS};
use crate::ray::Ray;
use crate::sphere::{
    lemma_hit_time_shrink, lemma_hit_time_widen, s_sphere_box, s_sphere_hit, s_sphere_hit_time,
    Sphere,
};

verus! {

pub open spec fn s_opt_time(o: Option<HitS>) -> Option<int> {
    match o {
        Option::None => Option::None,
        Option::Some(h) => Option::Some(h.time),
    }
}

/// `r` is the nearest hit time within `[t_min, t_max]` among the
/// primitives named by `idxs`: nothing iff none of them hits, otherwise
/// an achieved time no later than any of their hits.
pub open spec fn is_nearest_time(
    spheres: Seq<Sphere>,
    idxs: Seq<int>,
    ray: Ray,
    t_min: int,
    t_max: int,
    r: Option<int>,
) -> bool {
    match r {
        Option::None => forall|k: int|
            0 <= k < idxs.len() ==> #[trigger] s_sphere_hit_time(
                spheres[idxs[k]],
                ray,
                t_min,
                t_max,
            ) is None,
        Option::Some(t) => {
            &&& t_min <= t <= t_max
            &&& exists|k: int|
                0 <= k < idxs.len() && #[trigger] s_sphere_hit_time(
                    spheres[idxs[k]],
                    ray,
                    t_min,
                    t_max,
                ) == Option::Some(t)
            &&& forall|k: int|
                0 <= k < idxs.len() ==> match #[trigger] s_sphere_hit_time(
                    spheres[idxs[k]],
                    ray,
                    t_min,
                    t_max,
                ) {
                    Option::Some(u) => t <= u,
                    Option::None => true,
                }
        },
    }
}

/// Two nearest-time results over the same primitives are equal.
pub proof fn lemma_nearest_time_unique(
    spheres: Seq<Sphere>,
    idxs: Seq<int>,
    ray: Ray,
    t_min: int,
    t_max: int,
    r1: Option<int>,
    r2: Option<int>,
)
    requires
        is_nearest_time(spheres, idxs, ray, t_min, t_max, r1),
        is_nearest_time(spheres, idxs, ray, t_min, t_max, r2),
    ensures
        r1 == r2,
{
    match (r1, r2) {
        (Option::Some(t1), Option::Some(t2)) => {
            let k1 = choose|k: int|
                0 <= k < idxs.len() && #[trigger] s_sphere_hit_time(
                    spheres[idxs[k]],
                    ray,
                    t_min,
                    t_max,
                ) == Option::Some(t1);
            let k2 = choose|k: int|
                0 <= k < idxs.len() && #[trigger] s_sphere_hit_time(
                    spheres[idxs[k]],
                    ray,
                    t_min,
                    t_max,
                ) == Option::Some(t2);
            assert(t1 <= t2 && t2 <= t1);
        },
        (Option::Some(t1), Option::None) => {
            let k1 = choose|k: int|
                0 <= k < idxs.len() && #[trigger] s_sphere_hit_time(
                    spheres[idxs[k]],
                    ray,
                    t_min,
                    t_max,
                ) == Option::Some(t1);
        },
        (Option::None, Option::Some(t2)) => {
            let k2 = choose|k: int|
                0 <= k < idxs.len() && #[trigger] s_sphere_hit_time(
                    spheres[idxs[k]],
                    ray,
                    t_min,
                    t_max,
                ) == Option::Some(t2);
        },
        (Option::None, Option::None) => {},
    }
}

/// The identity index list `0, 1, ..., n-1`.
pub open spec fn all_indices(n: int) -> Seq<int> {
    Seq::new(n as nat, |i: int| i)
}

/// The running scan is the nearest hit among all spheres, by induction
/// from position `i` with `best` the nearest among the first `i`.
#[verifier::rlimit(100)]
proof fn lemma_scan_from_nearest(
    spheres: Seq<Sphere>,
    i: int,
    ray: Ray,
    t_min: int,
    t_max: int,
    best: Option<HitS>,
)
    requires
        0 <= i <= spheres.len(),
        is_nearest_time(
            spheres,
            all_indices(i),
            ray,
            t_min,
            t_max,
            s_opt_time(best),
        ),
    ensures
        is_nearest_time(
            spheres,
            all_indices(spheres.len() as int),
            ray,
            t_min,
            t_max,
            s_opt_time(s_scan_from(spheres, i, ray, t_min, t_max, best)),
        ),
    decreases spheres.len() - i,
{
    if i == spheres.len() {
    } else {
        let cur_max = match best {
            Option::None => t_max,
            Option::Some(b) => b.time,
        };
        let hi = s_sphere_hit(spheres[i], ray, t_min, cur_max);
        let next = match hi {
            Option::None => best,
            Option::Some(h) => Option::Some(h),
        };
        match best {
            Option::None => {
                match hi {
                    Option::None => {
                        assert forall|k: int| 0 <= k < i + 1 implies #[trigger] s_sphere_hit_time(
                            spheres[all_indices(i + 1)[k]],
                            ray,
                            t_min,
                            t_max,
                        ) is None by {
                            if k < i {
                                assert(s_sphere_hit_time(
                                    spheres[all_indices(i)[k]],
                                    ray,
                                    t_min,
                                    t_max,
                                ) is None);
                            }
                        }
                    },
                    Option::Some(h) => {
                        assert(s_sphere_hit_time(spheres[i], ray, t_min, t_max)
                            == Option::Some(h.time));
                        assert(all_indices(i + 1)[i] == i);
                        assert forall|k: int| 0 <= k < i + 1 implies match #[trigger] s_sphere_hit_time(
                            spheres[all_indices(i + 1)[k]],
                            ray,
                            t_min,
                            t_max,
                        ) {
                            Option::Some(u) => h.time <= u,
                            Option::None => true,
                        } by {
                            if k < i {
                                assert(s_sphere_hit_time(
                                    spheres[all_indices(i)[k]],
                                    ray,
                                    t_min,
                                    t_max,
                                ) is None);
                            }
                        }
                    },
                }
            },
            Option::Some(b) => {
                match hi {
                    Option::None => {
                        assert forall|k: int| 0 <= k < i + 1 implies match #[trigger] s_sphere_hit_time(
                            spheres[all_indices(i + 1)[k]],
                            ray,
                            t_min,
                            t_max,
                        ) {
                            Option::Some(u) => b.time <= u,
                            Option::None => true,
                        } by {
                            if k < i {
                                assert(all_indices(i)[k] == k);
                                assert(match s_sphere_hit_time(spheres[k], ray, t_min, t_max) {
                                    Option::Some(u) => b.time <= u,
                                    Option::None => true,
                                });
                            } else {
                                match s_sphere_hit_time(spheres[i], ray, t_min, t_max) {
                                    Option::Some(u) => {
                                        if u <= b.time {
                                            lemma_hit_time_shrink(
                                                spheres[i],
                                                ray,
                                                t_min,
                                                b.time,
                                                t_max,
                                                u,
                                            );
                                        }
                                    },
                                    Option::None => {},
                                }
                            }
                        }
                        let kb = choose|k: int|
                            0 <= k < i && #[trigger] s_sphere_hit_time(
                                spheres[all_indices(i)[k]],
                                ray,
                                t_min,
                                t_max,
                            ) == Option::Some(b.time);
                        assert(s_sphere_hit_time(
                            spheres[all_indices(i + 1)[kb]],
                            ray,
                            t_min,
                            t_max,
                        ) == Option::Some(b.time));
                    },
                    Option::Some(h) => {
                        assert(s_sphere_hit_time(spheres[i], ray, t_min, cur_max)
                            == Option::Some(h.time));
                        assert(h.time <= b.time && t_min <= h.time);
                        lemma_hit_time_widen(spheres[i], ray, t_min, cur_max, t_max, h.time);
                        assert(all_indices(i + 1)[i] == i);
                        assert forall|k: int| 0 <= k < i + 1 implies match #[trigger] s_sphere_hit_time(
                            spheres[all_indices(i + 1)[k]],
                            ray,
                            t_min,
                            t_max,
                        ) {
                            Option::Some(u) => h.time <= u,
                            Option::None => true,
                        } by {
                            if k < i {
                                assert(all_indices(i)[k] == k);
                                assert(match s_sphere_hit_time(spheres[k], ray, t_min, t_max) {
                                    Option::Some(u) => b.time <= u,
                                    Option::None => true,
                                });
                            }
                        }
                    },
                }
            },
        }
        lemma_scan_from_nearest(spheres, i + 1, ray, t_min, t_max, next);
    }
}

/// The brute-force scan reports the nearest hit time among all spheres.
pub proof fn lemma_scan_nearest(spheres: Seq<Sphere>, ray: Ray, t_min: int, t_max: int)
    ensures
        is_nearest_time(
            spheres,
            all_indices(spheres.len() as int),
            ray,
            t_min,
            t_max,
            s_opt_time(s_scan_hit(spheres, ray, t_min, t_max)),
        ),
{
    lemma_scan_from_nearest(spheres, 0, ray, t_min, t_max, Option::None);
}

/// The boxes of this subtree admit every hit of the primitives under
/// them, over every query interval. Exact arithmetic would make this a
/// theorem; with rounded scalars it is the premise under which pruning
/// is exactly lossless.
pub open spec fn node_covers(n: BvhNode, spheres: Seq<Sphere>, ray: Ray) -> bool
    decreases n,
{
    &&& forall|a: int, b: int, k: int|
        0 <= k < node_leaves(n).len() && !(#[trigger] s_sphere_hit_time(
            spheres[node_leaves(n)[k]],
            ray,
            a,
            b,
        ) is None) ==> s_aabb_hit(
            n.bounding_box.bx(),
            ray.origin_v(),
            ray.inv_direction_v(),
            a,
            b,
        )
    &&& child_covers(n.left, spheres, ray)
    &&& child_covers(n.right, spheres, ray)
}

pub open spec fn child_covers(c: BvhChild, spheres: Seq<Sphere>, ray: Ray) -> bool
    decreases c,
{
    match c {
        BvhChild::Prim(i) => true,
        BvhChild::Node(n) => node_covers(*n, spheres, ray),
    }
}

/// A child's traversal result is the nearest hit among its leaves.
#[verifier::rlimit(60)]
proof fn lemma_child_hit_nearest(
    c: BvhChild,
    spheres: Seq<Sphere>,
    ray: Ray,
    t_min: int,
    t_max: int,
)
    requires
        child_wf(c, spheres),
        child_covers(c, spheres, ray),
    ensures
        is_nearest_time(
            spheres,
            child_leaves(c),
            ray,
            t_min,
            t_max,
            s_opt_time(s_child_hit(c, spheres, ray, t_min, t_max)),
        ),
    decreases c,
{
    match c {
        BvhChild::Prim(i) => {
            let lv = child_leaves(c);
            assert(lv.len() == 1 && lv[0] == i as int);
            match s_sphere_hit(spheres[i as int], ray, t_min, t_max) {
                Option::None => {},
                Option::Some(h) => {
                    assert(t_min <= h.time <= t_max);
                    assert(s_sphere_hit_time(
                        spheres[child_leaves(c)[0]],
                        ray,
                        t_min,
                        t_max,
                    ) == Option::Some(h.time));
                    assert(exists|k: int|
                        0 <= k < child_leaves(c).len() && #[trigger] s_sphere_hit_time(
                            spheres[child_leaves(c)[k]],
                            ray,
                            t_min,
                            t_max,
                        ) == Option::Some(h.time));
                },
            }
        },
        BvhChild::Node(n) => {
            lemma_bvh_hit_nearest(*n, spheres, ray, t_min, t_max);
        },
    }
}

/// A node's traversal result is the nearest hit among its leaves: a
/// pruned subtree has no hits (by the coverage premise), and shrinking
/// the right query to the left hit's time loses no nearer hit.
#[verifier::rlimit(100)]
proof fn lemma_bvh_hit_nearest(n: BvhNode, spheres: Seq<Sphere>, ray: Ray, t_min: int, t_max: int)
    requires
        node_wf(n, spheres),
        node_covers(n, spheres, ray),
    ensures
        is_nearest_time(
            spheres,
            node_leaves(n),
            ray,
            t_min,
            t_max,
            s_opt_time(s_bvh_hit(n, spheres, ray, t_min, t_max)),
        ),
    decreases n,
{
    let lv = node_leaves(n);
    let ll = child_leaves(n.left);
    let lr = child_leaves(n.right);
    assert(lv == ll + lr);
    if !s_aabb_hit(n.bounding_box.bx(), ray.origin_v(), ray.inv_direction_v(), t_min, t_max) {
        assert forall|k: int| 0 <= k < lv.len() implies #[trigger] s_sphere_hit_time(
            spheres[lv[k]],
            ray,
            t_min,
            t_max,
        ) is None by {
            if !(s_sphere_hit_time(spheres[lv[k]], ray, t_min, t_max) is None) {
                assert(s_aabb_hit(
                    n.bounding_box.bx(),
                    ray.origin_v(),
                    ray.inv_direction_v(),
                    t_min,
                    t_max,
                ));
            }
        }
    } else {
        lemma_child_hit_nearest(n.left, spheres, ray, t_min, t_max);
        let hl = s_child_hit(n.left, spheres, ray, t_min, t_max);
        match hl {
            Option::None => {
                lemma_child_hit_nearest(n.right, spheres, ray, t_min, t_max);
                let hr = s_child_hit(n.right, spheres, ray, t_min, t_max);
                match hr {
                    Option::None => {
                        assert forall|k: int| 0 <= k < lv.len() implies #[trigger] s_sphere_hit_time(
                            spheres[lv[k]],
                            ray,
                            t_min,
                            t_max,
                        ) is None by {
                            if k < ll.len() {
                                assert(lv[k] == ll[k]);
                            } else {
                                assert(lv[k] == lr[k - ll.len()]);
                            }
                        }
                    },
                    Option::Some(h2) => {
                        let kr = choose|k: int|
                            0 <= k < lr.len() && #[trigger] s_sphere_hit_time(
                                spheres[lr[k]],
                                ray,
                                t_min,
                                t_max,
                            ) == Option::Some(h2.time);
                        assert(lv[ll.len() + kr] == lr[kr]);
                        assert forall|k: int| 0 <= k < lv.len() implies match #[trigger] s_sphere_hit_time(
                            spheres[lv[k]],
                            ray,
                            t_min,
                            t_max,
                        ) {
                            Option::Some(u) => h2.time <= u,
                            Option::None => true,
                        } by {
                            if k < ll.len() {
                                assert(lv[k] == ll[k]);
                            } else {
                                assert(lv[k] == lr[k - ll.len()]);
                            }
                        }
                    },
                }
            },
            Option::Some(h) => {
                lemma_child_hit_nearest(n.right, spheres, ray, t_min, h.time);
                let hr = s_child_hit(n.right, spheres, ray, t_min, h.time);
                let kl = choose|k: int|
                    0 <= k < ll.len() && #[trigger] s_sphere_hit_time(
                        spheres[ll[k]],
                        ray,
                        t_min,
                        t_max,
                    ) == Option::Some(h.time);
                assert(lv[kl] == ll[kl]);
                match hr {
                    Option::Some(h2) => {
                        let kr = choose|k: int|
                            0 <= k < lr.len() && #[trigger] s_sphere_hit_time(
                                spheres[lr[k]],
                                ray,
                                t_min,
                                h.time,
                            ) == Option::Some(h2.time);
                        lemma_hit_time_widen(
                            spheres[lr[kr]],
                            ray,
                            t_min,
                            h.time,
                            t_max,
                            h2.time,
                        );
                        assert(lv[ll.len() + kr] == lr[kr]);
                        assert forall|k: int| 0 <= k < lv.len() implies match #[trigger] s_sphere_hit_time(
                            spheres[lv[k]],
                            ray,
                            t_min,
                            t_max,
                        ) {
                            Option::Some(u) => h2.time <= u,
                            Option::None => true,
                        } by {
                            if k < ll.len() {
                                assert(lv[k] == ll[k]);
                            } else {
                                assert(lv[k] == lr[k - ll.len()]);
                                match s_sphere_hit_time(spheres[lv[k]], ray, t_min, t_max) {
                                    Option::Some(u) => {
                                        if u <= h.time {
                                            lemma_hit_time_shrink(
                                                spheres[lr[k - ll.len()]],
                                                ray,
                                                t_min,
                                                h.time,
                                                t_max,
                                                u,
                                            );
                                        }
                                    },
                                    Option::None => {},
                                }
                            }
                        }
                    },
                    Option::None => {
                        assert forall|k: int| 0 <= k < lv.len() implies match #[trigger] s_sphere_hit_time(
                            spheres[lv[k]],
                            ray,
                            t_min,
                            t_max,
                        ) {
                            Option::Some(u) => h.time <= u,
                            Option::None => true,
                        } by {
                            if k < ll.len() {
                                assert(lv[k] == ll[k]);
                            } else {
                                assert(lv[k] == lr[k - ll.len()]);
                                match s_sphere_hit_time(spheres[lv[k]], ray, t_min, t_max) {
                                    Option::Some(u) => {
                                        if u <= h.time {
                                            lemma_hit_time_shrink(
                                                spheres[lr[k - ll.len()]],
                                                ray,
                                                t_min,
                                                h.time,
                                                t_max,
                                                u,
                                            );
                                        }
                                    },
                                    Option::None => {},
                                }
                            }
                        }
                    },
                }
            },
        }
    }
}

/// The nearest-time property depends on the index list only through
/// membership.
proof fn lemma_nearest_transfer(
    spheres: Seq<Sphere>,
    idxs1: Seq<int>,
    idxs2: Seq<int>,
    ray: Ray,
    t_min: int,
    t_max: int,
    r: Option<int>,
)
    requires
        forall|v: int| idxs1.contains(v) <==> idxs2.contains(v),
        is_nearest_time(spheres, idxs1, ray, t_min, t_max, r),
    ensures
        is_nearest_time(spheres, idxs2, ray, t_min, t_max, r),
{
    match r {
        Option::None => {
            assert forall|k: int| 0 <= k < idxs2.len() implies #[trigger] s_sphere_hit_time(
                spheres[idxs2[k]],
                ray,
                t_min,
                t_max,
            ) is None by {
                let v = idxs2[k];
                assert(idxs2.contains(v));
                assert(idxs1.contains(v));
                let j = choose|j: int| 0 <= j < idxs1.len() && idxs1[j] == v;
                assert(s_sphere_hit_time(spheres[idxs1[j]], ray, t_min, t_max) is None);
            }
        },
        Option::Some(t) => {
            let k1 = choose|k: int|
                0 <= k < idxs1.len() && #[trigger] s_sphere_hit_time(
                    spheres[idxs1[k]],
                    ray,
                    t_min,
                    t_max,
                ) == Option::Some(t);
            let v = idxs1[k1];
            assert(idxs1.contains(v));
            assert(idxs2.contains(v));
            let k2 = choose|k: int| 0 <= k < idxs2.len() && idxs2[k] == v;
            assert(s_sphere_hit_time(spheres[idxs2[k2]], ray, t_min, t_max) == Option::Some(t));
            assert forall|k: int| 0 <= k < idxs2.len() implies match #[trigger] s_sphere_hit_time(
                spheres[idxs2[k]],
                ray,
                t_min,
                t_max,
            ) {
                Option::Some(u) => t <= u,
                Option::None => true,
            } by {
                let w = idxs2[k];
                assert(idxs2.contains(w));
                assert(idxs1.contains(w));
                let j = choose|j: int| 0 <= j < idxs1.len() && idxs1[j] == w;
                assert(match s_sphere_hit_time(spheres[idxs1[j]], ray, t_min, t_max) {
                    Option::Some(u) => t <= u,
                    Option::None => true,
                });
            }
        },
    }
}

/// Union of the boxes of the named primitives, folded left to right.
pub open spec fn s_boxes_union(spheres: Seq<Sphere>, idxs: Seq<int>) -> crate::aabb::BoxI
    recommends
        idxs.len() >= 1,
    decreases idxs.len(),
{
    if idxs.len() <= 1 {
        s_sphere_box(spheres[idxs[0]])
    } else {
        crate::aabb::s_surrounding(
            s_boxes_union(spheres, idxs.drop_last()),
            s_sphere_box(spheres[idxs.last()]),
        )
    }
}

/// Folding a concatenation unions the two folds, by associativity.
proof fn lemma_boxes_union_concat(spheres: Seq<Sphere>, a: Seq<int>, b: Seq<int>)
    requires
        a.len() >= 1,
        b.len() >= 1,
    ensures
        s_boxes_union(spheres, a + b) == crate::aabb::s_surrounding(
            s_boxes_union(spheres, a),
            s_boxes_union(spheres, b),
        ),
    decreases b.len(),
{
    if b.len() == 1 {
        assert((a + b).drop_last() =~= a);
        assert((a + b).last() == b[0]);
    } else {
        lemma_boxes_union_concat(spheres, a, b.drop_last());
        assert((a + b).drop_last() =~= a + b.drop_last());
        assert((a + b).last() == b.last());
        crate::aabb::lemma_surrounding_associative(
            s_boxes_union(spheres, a),
            s_boxes_union(spheres, b.drop_last()),
            s_sphere_box(spheres[b.last()]),
        );
    }
}

proof fn lemma_child_leaves_nonempty(c: BvhChild)
    ensures
        child_leaves(c).len() >= 1,
    decreases c,
{
    match c {
        BvhChild::Prim(i) => {},
        BvhChild::Node(n) => {
            lemma_child_leaves_nonempty(n.left);
        },
    }
}

proof fn lemma_child_box_is_leaf_union(c: BvhChild, spheres: Seq<Sphere>)
    requires
        child_wf(c, spheres),
    ensures
        crate::bvh::child_box(c, spheres) == s_boxes_union(spheres, child_leaves(c)),
    decreases c,
{
    match c {
        BvhChild::Prim(i) => {},
        BvhChild::Node(n) => {
            lemma_node_box_is_leaf_union(*n, spheres);
        },
    }
}

/// In a well-formed tree every node's box — built hierarchically, one
/// union per node — equals the direct union of all of its leaves' boxes.
pub proof fn lemma_node_box_is_leaf_union(n: BvhNode, spheres: Seq<Sphere>)
    requires
        node_wf(n, spheres),
    ensures
        n.bounding_box.bx() == s_boxes_union(spheres, node_leaves(n)),
    decreases n,
{
    lemma_child_box_is_leaf_union(n.left, spheres);
    lemma_child_box_is_leaf_union(n.right, spheres);
    lemma_child_leaves_nonempty(n.left);
    lemma_child_leaves_nonempty(n.right);
    lemma_boxes_union_concat(spheres, child_leaves(n.left), child_leaves(n.right));
}

/// Any hit a child's traversal reports is achieved by one of its
/// leaves over the full query interval.
proof fn lemma_child_hit_achieved(
    c: BvhChild,
    spheres: Seq<Sphere>,
    ray: Ray,
    t_min: int,
    t_max: int,
)
    requires
        child_wf(c, spheres),
    ensures
        match s_child_hit(c, spheres, ray, t_min, t_max) {
            Option::None => true,
            Option::Some(h) => t_min <= h.time <= t_max && exists|k: int|
                0 <= k < child_leaves(c).len() && #[trigger] s_sphere_hit_time(
                    spheres[child_leaves(c)[k]],
                    ray,
                    t_min,
                    t_max,
                ) == Option::Some(h.time),
        },
    decreases c,
{
    match c {
        BvhChild::Prim(i) => {
            let lv = child_leaves(c);
            assert(lv == seq![i as int]);
            assert(lv[0] == i as int);
            match s_sphere_hit(spheres[i as int], ray, t_min, t_max) {
                Option::None => {},
                Option::Some(h) => {
                    assert(t_min <= h.time <= t_max);
                    assert(s_sphere_hit_time(
                        spheres[child_leaves(c)[0]],
                        ray,
                        t_min,
                        t_max,
                    ) == Option::Some(h.time));
                    assert(exists|k: int|
                        0 <= k < child_leaves(c).len() && #[trigger] s_sphere_hit_time(
                            spheres[child_leaves(c)[k]],
                            ray,
                            t_min,
                            t_max,
                        ) == Option::Some(h.time));
                },
            }
        },
        BvhChild::Node(n) => {
            lemma_bvh_hit_achieved(*n, spheres, ray, t_min, t_max);
        },
    }
}

/// Any hit a node's traversal reports is achieved by one of its leaves
/// over the full query interval: pruning never invents a hit.
proof fn lemma_bvh_hit_achieved(n: BvhNode, spheres: Seq<Sphere>, ray: Ray, t_min: int, t_max: int)
    requires
        node_wf(n, spheres),
    ensures
        match s_bvh_hit(n, spheres, ray, t_min, t_max) {
            Option::None => true,
            Option::Some(h) => t_min <= h.time <= t_max && exists|k: int|
                0 <= k < node_leaves(n).len() && #[trigger] s_sphere_hit_time(
                    spheres[node_leaves(n)[k]],
                    ray,
                    t_min,
                    t_max,
                ) == Option::Some(h.time),
        },
    decreases n,
{
    let lv = node_leaves(n);
    let ll = child_leaves(n.left);
    let lr = child_leaves(n.right);
    assert(lv == ll + lr);
    if s_aabb_hit(n.bounding_box.bx(), ray.origin_v(), ray.inv_direction_v(), t_min, t_max) {
        lemma_child_hit_achieved(n.left, spheres, ray, t_min, t_max);
        let hl = s_child_hit(n.left, spheres, ray, t_min, t_max);
        match hl {
            Option::None => {
                lemma_child_hit_achieved(n.right, spheres, ray, t_min, t_max);
                match s_child_hit(n.right, spheres, ray, t_min, t_max) {
                    Option::None => {},
                    Option::Some(h2) => {
                        let kr = choose|k: int|
                            0 <= k < lr.len() && #[trigger] s_sphere_hit_time(
                                spheres[lr[k]],
                                ray,
                                t_min,
                                t_max,
                            ) == Option::Some(h2.time);
                        assert(lv[ll.len() + kr] == lr[kr]);
                    },
                }
            },
            Option::Some(h) => {
                lemma_child_hit_achieved(n.right, spheres, ray, t_min, h.time);
                let kl = choose|k: int|
                    0 <= k < ll.len() && #[trigger] s_sphere_hit_time(
                        spheres[ll[k]],
                        ray,
                        t_min,
                        t_max,
                    ) == Option::Some(h.time);
                assert(lv[kl] == ll[kl]);
                match s_child_hit(n.right, spheres, ray, t_min, h.time) {
                    Option::None => {},
                    Option::Some(h2) => {
                        let kr = choose|k: int|
                            0 <= k < lr.len() && #[trigger] s_sphere_hit_time(
                                spheres[lr[k]],
                                ray,
                                t_min,
                                h.time,
                            ) == Option::Some(h2.time);
                        lemma_hit_time_widen(
                            spheres[lr[kr]],
                            ray,
                            t_min,
                            h.time,
                            t_max,
                            h2.time,
                        );
                        assert(lv[ll.len() + kr] == lr[kr]);
                    },
                }
            },
        }
    }
}

/// Unconditionally, whatever the traversal reports the scan also finds,
/// at the same or an earlier time: pruning can only lose hits, never
/// invent them.
pub proof fn lemma_scan_no_later_than_bvh(
    n: BvhNode,
    spheres: Seq<Sphere>,
    ray: Ray,
    t_min: int,
    t_max: int,
)
    requires
        node_wf(n, spheres),
        forall|v: int| node_leaves(n).contains(v) ==> 0 <= v < spheres.len(),
    ensures
        match s_opt_time(s_bvh_hit(n, spheres, ray, t_min, t_max)) {
            Option::None => true,
            Option::Some(t) => match s_opt_time(s_scan_hit(spheres, ray, t_min, t_max)) {
                Option::None => false,
                Option::Some(t2) => t2 <= t,
            },
        },
{
    lemma_bvh_hit_achieved(n, spheres, ray, t_min, t_max);
    lemma_scan_nearest(spheres, ray, t_min, t_max);
    let all = all_indices(spheres.len() as int);
    match s_bvh_hit(n, spheres, ray, t_min, t_max) {
        Option::None => {},
        Option::Some(h) => {
            let lv = node_leaves(n);
            let k = choose|k: int|
                0 <= k < lv.len() && #[trigger] s_sphere_hit_time(
                    spheres[lv[k]],
                    ray,
                    t_min,
                    t_max,
                ) == Option::Some(h.time);
            let v = lv[k];
            assert(lv.contains(v));
            assert(all[v] == v);
            assert(s_sphere_hit_time(spheres[all[v]], ray, t_min, t_max) == Option::Some(h.time));
        },
    }
}

/// `b` is the exact union of the named primitives' boxes: it contains
/// every one of them, and each of its six faces is achieved by one of
/// them. This pins the union down through membership alone, so any two
/// orders (or repetitions) of the same primitives give the same box.
pub open spec fn s_is_union_box(spheres: Seq<Sphere>, idxs: Seq<int>, b: crate::aabb::BoxI) -> bool {
    &&& forall|k: int|
        0 <= k < idxs.len() ==> crate::aabb::s_box_contains(
            b,
            #[trigger] s_sphere_box(spheres[idxs[k]]),
        )
    &&& exists|k: int|
        0 <= k < idxs.len() && (#[trigger] s_sphere_box(spheres[idxs[k]])).min.x == b.min.x
    &&& exists|k: int|
        0 <= k < idxs.len() && (#[trigger] s_sphere_box(spheres[idxs[k]])).min.y == b.min.y
    &&& exists|k: int|
        0 <= k < idxs.len() && (#[trigger] s_sphere_box(spheres[idxs[k]])).min.z == b.min.z
    &&& exists|k: int|
        0 <= k < idxs.len() && (#[trigger] s_sphere_box(spheres[idxs[k]])).max.x == b.max.x
    &&& exists|k: int|
        0 <= k < idxs.len() && (#[trigger] s_sphere_box(spheres[idxs[k]])).max.y == b.max.y
    &&& exists|k: int|
        0 <= k < idxs.len() && (#[trigger] s_sphere_box(spheres[idxs[k]])).max.z == b.max.z
}

/// The left-to-right fold of box unions is the exact union.
proof fn lemma_boxes_union_is_union_box(spheres: Seq<Sphere>, idxs: Seq<int>)
    requires
        idxs.len() >= 1,
    ensures
        s_is_union_box(spheres, idxs, s_boxes_union(spheres, idxs)),
    decreases idxs.len(),
{
    if idxs.len() == 1 {
        assert(s_sphere_box(spheres[idxs[0]]).min.x == s_boxes_union(spheres, idxs).min.x);
    } else {
        let rest = idxs.drop_last();
        lemma_boxes_union_is_union_box(spheres, rest);
        let u = s_boxes_union(spheres, rest);
        let b = s_boxes_union(spheres, idxs);
        let last = idxs.len() - 1;
        assert forall|k: int|
            0 <= k < idxs.len() implies crate::aabb::s_box_contains(
            b,
            #[trigger] s_sphere_box(spheres[idxs[k]]),
        ) by {
            if k < last {
                assert(rest[k] == idxs[k]);
                assert(crate::aabb::s_box_contains(u, s_sphere_box(spheres[rest[k]])));
            }
        }
        assert(b.min.x == u.min.x || b.min.x == s_sphere_box(spheres[idxs[last]]).min.x);
        if b.min.x == u.min.x {
            let k = choose|k: int|
                0 <= k < rest.len() && (#[trigger] s_sphere_box(spheres[rest[k]])).min.x
                    == u.min.x;
            assert(s_sphere_box(spheres[idxs[k]]).min.x == b.min.x);
        }
        if b.min.y == u.min.y {
            let k = choose|k: int|
                0 <= k < rest.len() && (#[trigger] s_sphere_box(spheres[rest[k]])).min.y
                    == u.min.y;
            assert(s_sphere_box(spheres[idxs[k]]).min.y == b.min.y);
        }
        if b.min.z == u.min.z {
            let k = choose|k: int|
                0 <= k < rest.len() && (#[trigger] s_sphere_box(spheres[rest[k]])).min.z
                    == u.min.z;
            assert(s_sphere_box(spheres[idxs[k]]).min.z == b.min.z);
        }
        if b.max.x == u.max.x {
            let k = choose|k: int|
                0 <= k < rest.len() && (#[trigger] s_sphere_box(spheres[rest[k]])).max.x
                    == u.max.x;
            assert(s_sphere_box(spheres[idxs[k]]).max.x == b.max.x);
        }
        if b.max.y == u.max.y {
            let k = choose|k: int|
                0 <= k < rest.len() && (#[trigger] s_sphere_box(spheres[rest[k]])).max.y
                    == u.max.y;
            assert(s_sphere_box(spheres[idxs[k]]).max.y == b.max.y);
        }
        if b.max.z == u.max.z {
            let k = choose|k: int|
                0 <= k < rest.len() && (#[trigger] s_sphere_box(spheres[rest[k]])).max.z
                    == u.max.z;
            assert(s_sphere_box(spheres[idxs[k]]).max.z == b.max.z);
        }
    }
}

/// Two exact unions over index lists with the same members are the same
/// box: every achieved face of the one is bounded by the other.
proof fn lemma_union_box_unique(
    spheres: Seq<Sphere>,
    idxs1: Seq<int>,
    idxs2: Seq<int>,
    b1: crate::aabb::BoxI,
    b2: crate::aabb::BoxI,
)
    requires
        forall|v: int| idxs1.contains(v) <==> idxs2.contains(v),
        s_is_union_box(spheres, idxs1, b1),
        s_is_union_box(spheres, idxs2, b2),
    ensures
        b1 == b2,
{
    assert forall|k: int|
        0 <= k < idxs1.len() implies crate::aabb::s_box_contains(
        b2,
        #[trigger] s_sphere_box(spheres[idxs1[k]]),
    ) by {
        let v = idxs1[k];
        assert(idxs1.contains(v));
        assert(idxs2.contains(v));
        let j = choose|j: int| 0 <= j < idxs2.len() && idxs2[j] == v;
        assert(crate::aabb::s_box_contains(b2, s_sphere_box(spheres[idxs2[j]])));
    }
    assert forall|k: int|
        0 <= k < idxs2.len() implies crate::aabb::s_box_contains(
        b1,
        #[trigger] s_sphere_box(spheres[idxs2[k]]),
    ) by {
        let v = idxs2[k];
        assert(idxs2.contains(v));
        assert(idxs1.contains(v));
        let j = choose|j: int| 0 <= j < idxs1.len() && idxs1[j] == v;
        assert(crate::aabb::s_box_contains(b1, s_sphere_box(spheres[idxs1[j]])));
    }
    assert(b1.min.x == b2.min.x && b1.min.y == b2.min.y && b1.min.z == b2.min.z && b1.max.x
        == b2.max.x && b1.max.y == b2.max.y && b1.max.z == b2.max.z);
}

/// A tree spanning the whole scene stores at its root exactly the fold
/// of box unions over the spheres in input order: the hierarchical
/// union equals the direct union of all leaf boxes.
pub proof fn lemma_root_box_is_input_union(n: BvhNode, spheres: Seq<Sphere>)
    requires
        node_wf(n, spheres),
        spheres.len() >= 1,
        forall|v: int| node_leaves(n).contains(v) <==> 0 <= v < spheres.len(),
    ensures
        n.bounding_box.bx() == s_boxes_union(spheres, all_indices(spheres.len() as int)),
{
    lemma_node_box_is_leaf_union(n, spheres);
    lemma_child_leaves_nonempty(n.left);
    assert(node_leaves(n).len() >= 1) by {
        assert(node_leaves(n) == child_leaves(n.left) + child_leaves(n.right));
    }
    lemma_boxes_union_is_union_box(spheres, node_leaves(n));
    let all = all_indices(spheres.len() as int);
    lemma_boxes_union_is_union_box(spheres, all);
    assert forall|v: int| node_leaves(n).contains(v) <==> all.contains(v) by {
        if 0 <= v < all.len() {
            assert(all[v] == v);
        }
    }
    lemma_union_box_unique(
        spheres,
        node_leaves(n),
        all,
        n.bounding_box.bx(),
        s_boxes_union(spheres, all),
    );
}

/// For any scene, ray and interval: when the tree's boxes admit every
/// hit of the primitives under them and its leaves are exactly the
/// scene's primitives, the traversal's nearest hit time equals the
/// brute-force scan's.
pub proof fn lemma_bvh_agrees_with_scan(
    n: BvhNode,
    spheres: Seq<Sphere>,
    ray: Ray,
    t_min: int,
    t_max: int,
)
    requires
        node_wf(n, spheres),
        node_covers(n, spheres, ray),
        forall|v: int| node_leaves(n).contains(v) <==> 0 <= v < spheres.len(),
    ensures
        s_opt_time(s_bvh_hit(n, spheres, ray, t_min, t_max)) == s_opt_time(
            s_scan_hit(spheres, ray, t_min, t_max),
        ),
{
    lemma_bvh_hit_nearest(n, spheres, ray, t_min, t_max);
    lemma_scan_nearest(spheres, ray, t_min, t_max);
    let all = all_indices(spheres.len() as int);
    assert forall|v: int| node_leaves(n).contains(v) <==> all.contains(v) by {
        if 0 <= v < all.len() {
            assert(all[v] == v);
        }
    }
    lemma_nearest_transfer(
        spheres,
        node_leaves(n),
        all,
        ray,
        t_min,
        t_max,
        s_opt_time(s_bvh_hit(n, spheres, ray, t_min, t_max)),
    );
    lemma_nearest_time_unique(
        spheres,
        all,
        ray,
        t_min,
        t_max,
        s_opt_time(s_bvh_hit(n, spheres, ray, t_min, t_max)),
        s_opt_time(s_scan_hit(spheres, ray, t_min, t_max)),
    );
}

/// The same agreement stated on a whole scene: a world whose tree spans
/// all of its spheres reports, through the tree, the nearest hit time
/// that its own brute-force scan reports, whenever the tree's boxes
/// admit every hit under them.
pub proof fn lemma_world_tree_agrees_with_scan(w: crate::hit::World, ray: Ray, t_min: int, t_max: int)
    requires
        w.wf(),
        w.root matches Some(root) && node_covers(root, w.spheres@, ray) && (forall|v: int|
            node_leaves(root).contains(v) <==> 0 <= v < w.spheres@.len()),
    ensures
        s_opt_time(crate::hit::s_world_first_hit(w, ray, t_min, t_max)) == s_opt_time(
            s_scan_hit(w.spheres@, ray, t_min, t_max),
        ),
{
    let root = w.root->Some_0;
    lemma_bvh_agrees_with_scan(root, w.spheres@, ray, t_min, t_max);
}

} // verus!
