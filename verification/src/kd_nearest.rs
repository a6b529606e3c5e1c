//! What the search of the tree finds, measured against a scan of every
//! triangle.
//!
//! The search passes by whole subtrees, and whether it may do so depends on
//! the numbers it is given. [`consistent`] states what the numbers of a ray
//! owe to geometry, and [`search_finds_the_nearest`] proves that on such
//! numbers the search returns the nearest of all hits in all leaves. An
//! index holds every triangle of its mesh, so that this is the nearest hit of
//! the mesh: [`search_scans_the_mesh`].

use vstd::prelude::*;
use crate::geo::in_front;
use crate::geo::TriSample;
use crate::kd_tree::held;
use crate::kd_tree::node_shaped;
use crate::kd_tree::tree_shaped;
use crate::kd_tree::KindModel;
use crate::kd_tree::NodeModel;
use crate::kd_walk::improved;
use crate::kd_walk::leaf_best;
use crate::kd_walk::limit;
use crate::kd_walk::near_far;
use crate::kd_walk::nearest;
use crate::kd_walk::sampled;
use crate::kd_walk::scanned;
use crate::kd_walk::settles;
use crate::kd_walk::visited;
use crate::kd_walk::KdHit;
use crate::kd_walk::ProbeModel;
use crate::mesh::AABB;
use crate::scalar::Scalar;
use crate::scalar::FAR_BITS;

verus! {

/// Whether a sample is a hit at distance `t`, nearer than the far distance.
pub open spec fn hits_at(s: TriSample, t: Scalar) -> bool {
    s.accepts() && s.t == t && t.lt(Scalar::from_bits(FAR_BITS))
}

/// The hit that a sample of a triangle stands for.
pub open spec fn hit_of(tri: (u32, u32, u32), s: TriSample) -> KdHit {
    KdHit { t: s.t, u: s.u, v: s.v, tri }
}

/// Whether one of the first `k` triangles of a leaf is hit at distance `t`.
pub open spec fn occurs_in_leaf(samples: Seq<TriSample>, k: nat, t: Scalar) -> bool {
    exists|j: int| 0 <= j < k && hits_at(#[trigger] samples[j], t)
}

/// Whether a triangle in some leaf below node `n` is hit at distance `t`.
pub open spec fn occurs(tree: Seq<NodeModel>, probes: Seq<ProbeModel>, n: usize, t: Scalar) -> bool
    decreases tree.len() - n,
{
    if n >= tree.len() || n >= probes.len() {
        false
    } else {
        match tree[n as int].kind {
            KindModel::Leaf(tris) => occurs_in_leaf(
                probes[n as int].samples,
                sampled(tris, probes[n as int].samples),
                t,
            ),
            KindModel::Internal { left, right, axis, split } => {
                if n < left < tree.len() && n < right < tree.len() {
                    occurs(tree, probes, left, t) || occurs(tree, probes, right, t)
                } else {
                    false
                }
            },
        }
    }
}

/// Whether the best hit so far is a hit: in front, and nearer than the far
/// distance.
pub open spec fn sound(best: Option<KdHit>) -> bool {
    best matches Some(h) ==> in_front(h.t) && h.t.lt(Scalar::from_bits(FAR_BITS))
}

/// What the numbers at node `n` owe to geometry.
///
/// A ray that misses the box of a node hits no triangle below it. At a cut,
/// the crossing of the cutting plane is a number, and it parts the hits: a
/// hit at or beyond the crossing lies on a triangle that stands in the far
/// child as well, and a hit at or before the crossing on one that stands in
/// the near child as well.
pub open spec fn node_consistent(tree: Seq<NodeModel>, probes: Seq<ProbeModel>, n: usize) -> bool {
    let p = probes[n as int];
    if !AABB::intersect_ray(p.t0s, p.t1s) {
        forall|t: Scalar| !#[trigger] occurs(tree, probes, n, t)
    } else {
        match tree[n as int].kind {
            KindModel::Leaf(_) => true,
            KindModel::Internal { left, right, axis, split } => {
                let (near, far) = near_far(left, right, p.dir);
                &&& !p.t_split.is_nan()
                &&& forall|t: Scalar|
                    #[trigger] occurs(tree, probes, near, t) && p.t_split.le(t) ==> occurs(
                        tree,
                        probes,
                        far,
                        t,
                    )
                &&& forall|t: Scalar|
                    #[trigger] occurs(tree, probes, far, t) && t.le(p.t_split) ==> occurs(
                        tree,
                        probes,
                        near,
                        t,
                    )
            },
        }
    }
}

/// What the numbers of a ray owe to geometry: every node is consistent, and
/// every hit lies on the stretch of the ray inside the root's box.
pub open spec fn consistent(tree: Seq<NodeModel>, probes: Seq<ProbeModel>) -> bool {
    &&& forall|n: usize| n < tree.len() ==> node_consistent(tree, probes, n)
    &&& match AABB::hit(probes[0].t0s, probes[0].t1s) {
        Some((t_min, t_max)) => {
            &&& !t_min.is_nan()
            &&& forall|t: Scalar|
                #[trigger] occurs(tree, probes, 0, t) ==> t_min.le(t) && t.le(t_max)
        },
        None => true,
    }
}

/// A scan of a leaf keeps the nearest hit: the result is the best hit so far
/// or a strictly nearer hit of the leaf, and no hit of the leaf is nearer
/// than the result.
pub proof fn scan_keeps_the_nearest(
    tris: Seq<(u32, u32, u32)>,
    samples: Seq<TriSample>,
    best: Option<KdHit>,
    k: nat,
)
    requires
        sound(best),
    ensures
        ({
            let r = scanned(tris, samples, best, k);
            &&& sound(r)
            &&& r == best || (r matches Some(h) && occurs_in_leaf(samples, k, h.t) && h.t.lt(
                limit(best),
            ))
            &&& r matches Some(h) ==> r == best || exists|j: int|
                0 <= j < k && h == hit_of(tris[j], #[trigger] samples[j]) && samples[j].accepts()
            &&& forall|t: Scalar| #[trigger] occurs_in_leaf(samples, k, t) ==> !t.lt(limit(r))
            &&& !limit(best).lt(limit(r))
        }),
    decreases k,
{
    if k > 0 {
        let before = scanned(tris, samples, best, (k - 1) as nat);
        scan_keeps_the_nearest(tris, samples, best, (k - 1) as nat);
        let s = samples[k - 1];
        let r = improved(before, tris[k - 1], s);
        if s.accepts() && s.t.lt(limit(before)) {
            assert(hits_at(samples[k - 1], s.t));
            assert(r->Some_0 == hit_of(tris[k - 1], samples[k - 1]));
        } else {
            if before is Some && before != best {
                let h = before->Some_0;
                let j = choose|j: int| 0 <= j < k - 1 && hits_at(#[trigger] samples[j], h.t);
                assert(hits_at(samples[j], h.t));
                let i = choose|i: int|
                    0 <= i < k - 1 && h == hit_of(tris[i], #[trigger] samples[i])
                        && samples[i].accepts();
                assert(h == hit_of(tris[i], samples[i]) && samples[i].accepts());
            }
        }
        assert forall|t: Scalar| occurs_in_leaf(samples, k, t) implies !t.lt(limit(r)) by {
            let j = choose|j: int| 0 <= j < k && hits_at(#[trigger] samples[j], t);
            if j < k - 1 {
                assert(occurs_in_leaf(samples, (k - 1) as nat, t));
            }
        }
    }
}

/// Whatever the numbers, the recursion over a subtree returns the best hit
/// it was given or a strictly nearer hit that occurs in the subtree.
proof fn visit_returns_a_hit(
    tree: Seq<NodeModel>,
    probes: Seq<ProbeModel>,
    n: usize,
    t_min: Scalar,
    t_max: Scalar,
    best: Option<KdHit>,
)
    requires
        tree_shaped(tree),
        probes.len() == tree.len(),
        n < tree.len(),
        sound(best),
    ensures
        ({
            let r = visited(tree, probes, n, t_min, t_max, best);
            &&& sound(r.0)
            &&& r.0 == best || (r.0 matches Some(h) && occurs(tree, probes, n, h.t) && h.t.lt(
                limit(best),
            ))
            &&& !limit(best).lt(limit(r.0))
        }),
    decreases tree.len() - n,
{
    let p = probes[n as int];
    assert(node_shaped(tree, n as int));
    if AABB::intersect_ray(p.t0s, p.t1s) {
        match tree[n as int].kind {
            KindModel::Leaf(tris) => {
                scan_keeps_the_nearest(tris, p.samples, best, sampled(tris, p.samples));
            },
            KindModel::Internal { left, right, axis, split } => {
                let (near, far) = near_far(left, right, p.dir);
                let c = p.t_split;
                if c.le(t_min) {
                    visit_returns_a_hit(tree, probes, far, t_min, t_max, best);
                } else if c.ge(t_max) {
                    visit_returns_a_hit(tree, probes, near, t_min, t_max, best);
                } else {
                    visit_returns_a_hit(tree, probes, near, t_min, c, best);
                    let first = visited(tree, probes, near, t_min, c, best);
                    if !first.1 {
                        visit_returns_a_hit(tree, probes, far, c, t_max, first.0);
                    }
                }
            },
        }
    }
}

/// Whatever the numbers, the search returns only what a scan of every
/// triangle could return: a hit that occurs in a leaf, in front and nearer
/// than the far distance.
pub proof fn search_returns_a_hit(tree: Seq<NodeModel>, probes: Seq<ProbeModel>)
    requires
        tree_shaped(tree),
        probes.len() == tree.len(),
    ensures
        nearest(tree, probes) matches Some(h) ==> in_front(h.t) && h.t.lt(
            Scalar::from_bits(FAR_BITS),
        ) && occurs(tree, probes, 0, h.t),
{
    match AABB::hit(probes[0].t0s, probes[0].t1s) {
        Some((t_min, t_max)) => {
            visit_returns_a_hit(tree, probes, 0, t_min, t_max, None);
        },
        None => {},
    }
}

/// The recursion over a subtree keeps the nearest hit of the stretch it is
/// given.
proof fn visit_keeps_the_nearest(
    tree: Seq<NodeModel>,
    probes: Seq<ProbeModel>,
    n: usize,
    t_min: Scalar,
    t_max: Scalar,
    best: Option<KdHit>,
)
    requires
        tree_shaped(tree),
        probes.len() == tree.len(),
        n < tree.len(),
        forall|i: usize| i < tree.len() ==> node_consistent(tree, probes, i),
        !t_min.is_nan(),
        !t_max.is_nan(),
        sound(best),
    ensures
        ({
            let r = visited(tree, probes, n, t_min, t_max, best);
            &&& sound(r.0)
            &&& r.0 == best || (r.0 matches Some(h) && occurs(tree, probes, n, h.t) && h.t.lt(
                limit(best),
            ))
            &&& forall|t: Scalar|
                #[trigger] occurs(tree, probes, n, t) && t_min.le(t) && t.le(t_max) ==> !t.lt(
                    limit(r.0),
                )
            &&& !limit(best).lt(limit(r.0))
            &&& r.1 ==> settles(r.0, t_max)
        }),
    decreases tree.len() - n,
{
    let p = probes[n as int];
    let r = visited(tree, probes, n, t_min, t_max, best);
    assert(node_shaped(tree, n as int));
    assert(node_consistent(tree, probes, n));
    if AABB::intersect_ray(p.t0s, p.t1s) {
        match tree[n as int].kind {
            KindModel::Leaf(tris) => {
                scan_keeps_the_nearest(tris, p.samples, best, sampled(tris, p.samples));
            },
            KindModel::Internal { left, right, axis, split } => {
                let (near, far) = near_far(left, right, p.dir);
                let c = p.t_split;
                assert(forall|t: Scalar|
                    occurs(tree, probes, n, t) == (occurs(tree, probes, near, t) || occurs(
                        tree,
                        probes,
                        far,
                        t,
                    )));
                if c.le(t_min) {
                    visit_keeps_the_nearest(tree, probes, far, t_min, t_max, best);
                    assert forall|t: Scalar| #[trigger]
                        occurs(tree, probes, n, t) && t_min.le(t) && t.le(t_max) implies !t.lt(
                        limit(r.0),
                    ) by {
                        if !occurs(tree, probes, far, t) {
                            assert(occurs(tree, probes, near, t) && c.le(t));
                        }
                    }
                } else if c.ge(t_max) {
                    visit_keeps_the_nearest(tree, probes, near, t_min, t_max, best);
                    assert forall|t: Scalar| #[trigger]
                        occurs(tree, probes, n, t) && t_min.le(t) && t.le(t_max) implies !t.lt(
                        limit(r.0),
                    ) by {
                        if !occurs(tree, probes, near, t) {
                            assert(occurs(tree, probes, far, t) && t.le(c));
                        }
                    }
                } else {
                    visit_keeps_the_nearest(tree, probes, near, t_min, c, best);
                    let first = visited(tree, probes, near, t_min, c, best);
                    if first.1 {
                        assert forall|t: Scalar| #[trigger]
                            occurs(tree, probes, n, t) && t_min.le(t) && t.le(t_max) implies !t.lt(
                            limit(r.0),
                        ) by {
                            if t.le(c) {
                                if !occurs(tree, probes, near, t) {
                                    assert(occurs(tree, probes, far, t) && t.le(c));
                                }
                                assert(occurs(tree, probes, near, t));
                            }
                        }
                    } else {
                        visit_keeps_the_nearest(tree, probes, far, c, t_max, first.0);
                        assert forall|t: Scalar| #[trigger]
                            occurs(tree, probes, n, t) && t_min.le(t) && t.le(t_max) implies !t.lt(
                            limit(r.0),
                        ) by {
                            if t.le(c) {
                                if !occurs(tree, probes, near, t) {
                                    assert(occurs(tree, probes, far, t) && t.le(c));
                                }
                                assert(occurs(tree, probes, near, t));
                                assert(!t.lt(limit(first.0)));
                            } else {
                                if !occurs(tree, probes, far, t) {
                                    assert(occurs(tree, probes, near, t) && c.le(t));
                                }
                                assert(occurs(tree, probes, far, t));
                            }
                        }
                    }
                }
            },
        }
    }
}

/// On the numbers of a geometrically consistent ray, the search returns what
/// a scan of every triangle in every leaf returns: where it finds a hit, that
/// hit occurs in a leaf and no hit in any leaf is nearer; where it finds
/// none, there is none.
pub proof fn search_finds_the_nearest(tree: Seq<NodeModel>, probes: Seq<ProbeModel>)
    requires
        tree_shaped(tree),
        probes.len() == tree.len(),
        consistent(tree, probes),
    ensures
        match nearest(tree, probes) {
            Some(h) => {
                &&& in_front(h.t)
                &&& occurs(tree, probes, 0, h.t)
                &&& forall|t: Scalar| #[trigger] occurs(tree, probes, 0, t) ==> !t.lt(h.t)
            },
            None => forall|t: Scalar| !#[trigger] occurs(tree, probes, 0, t),
        },
{
    match AABB::hit(probes[0].t0s, probes[0].t1s) {
        Some((t_min, t_max)) => {
            visit_keeps_the_nearest(tree, probes, 0, t_min, t_max, None);
            let r = visited(tree, probes, 0, t_min, t_max, None);
            assert forall|t: Scalar| #[trigger] occurs(tree, probes, 0, t) implies !t.lt(
                limit(r.0),
            ) by {}
            if r.0 is None {
                assert forall|t: Scalar| !occurs(tree, probes, 0, t) by {
                    if occurs(tree, probes, 0, t) {
                        occurs_is_near(tree, probes, 0, t);
                    }
                }
            }
        },
        None => {
            assert(node_consistent(tree, probes, 0));
        },
    }
}

/// Whatever occurs is a hit: in front, and nearer than the far distance.
pub proof fn occurs_is_near(tree: Seq<NodeModel>, probes: Seq<ProbeModel>, n: usize, t: Scalar)
    requires
        occurs(tree, probes, n, t),
    ensures
        in_front(t),
        t.lt(Scalar::from_bits(FAR_BITS)),
    decreases tree.len() - n,
{
    match tree[n as int].kind {
        KindModel::Leaf(tris) => {},
        KindModel::Internal { left, right, axis, split } => {
            if occurs(tree, probes, left, t) {
                occurs_is_near(tree, probes, left, t);
            } else {
                occurs_is_near(tree, probes, right, t);
            }
        },
    }
}

/// Whether the hit `h` is a hit of a triangle in some leaf below node `n`:
/// the triangle and its sample stand side by side in the leaf, and the
/// sample is a hit nearer than the far distance.
pub open spec fn found(tree: Seq<NodeModel>, probes: Seq<ProbeModel>, n: usize, h: KdHit) -> bool
    decreases tree.len() - n,
{
    if n >= tree.len() || n >= probes.len() {
        false
    } else {
        match tree[n as int].kind {
            KindModel::Leaf(tris) => exists|j: int|
                0 <= j < sampled(tris, probes[n as int].samples) && h == hit_of(
                    tris[j],
                    #[trigger] probes[n as int].samples[j],
                ) && hits_at(probes[n as int].samples[j], h.t),
            KindModel::Internal { left, right, axis, split } => {
                if n < left < tree.len() && n < right < tree.len() {
                    found(tree, probes, left, h) || found(tree, probes, right, h)
                } else {
                    false
                }
            },
        }
    }
}

proof fn visit_returns_a_found_hit(
    tree: Seq<NodeModel>,
    probes: Seq<ProbeModel>,
    n: usize,
    t_min: Scalar,
    t_max: Scalar,
    best: Option<KdHit>,
)
    requires
        tree_shaped(tree),
        probes.len() == tree.len(),
        n < tree.len(),
        sound(best),
    ensures
        ({
            let r = visited(tree, probes, n, t_min, t_max, best);
            r.0 == best || (r.0 matches Some(h) && found(tree, probes, n, h))
        }),
    decreases tree.len() - n,
{
    let p = probes[n as int];
    assert(node_shaped(tree, n as int));
    if AABB::intersect_ray(p.t0s, p.t1s) {
        match tree[n as int].kind {
            KindModel::Leaf(tris) => {
                let k = sampled(tris, p.samples);
                scan_keeps_the_nearest(tris, p.samples, best, k);
                let r = scanned(tris, p.samples, best, k);
                if r != best {
                    let h = r->Some_0;
                    let j = choose|j: int|
                        0 <= j < k && h == hit_of(tris[j], #[trigger] p.samples[j])
                            && p.samples[j].accepts();
                    assert(hits_at(p.samples[j], h.t));
                }
            },
            KindModel::Internal { left, right, axis, split } => {
                let (near, far) = near_far(left, right, p.dir);
                let c = p.t_split;
                if c.le(t_min) {
                    visit_returns_a_found_hit(tree, probes, far, t_min, t_max, best);
                } else if c.ge(t_max) {
                    visit_returns_a_found_hit(tree, probes, near, t_min, t_max, best);
                } else {
                    visit_returns_a_found_hit(tree, probes, near, t_min, c, best);
                    visit_returns_a_hit(tree, probes, near, t_min, c, best);
                    let first = visited(tree, probes, near, t_min, c, best);
                    if !first.1 {
                        visit_returns_a_found_hit(tree, probes, far, c, t_max, first.0);
                    }
                }
            },
        }
    }
}

/// Whether the table of probes holds, at every leaf, the sample of each of
/// the leaf's triangles: `sample_of` gives what the ray yields for a
/// triangle, wherever the triangle stands.
pub open spec fn faithful(
    tree: Seq<NodeModel>,
    probes: Seq<ProbeModel>,
    sample_of: spec_fn((u32, u32, u32)) -> TriSample,
) -> bool {
    forall|n: int|
        0 <= n < tree.len() ==> ((#[trigger] tree[n]).kind matches KindModel::Leaf(tris) ==> {
            &&& probes[n].samples.len() == tris.len()
            &&& forall|j: int|
                0 <= j < tris.len() ==> #[trigger] probes[n].samples[j] == sample_of(tris[j])
        })
}

proof fn found_is_in_the_list(
    tree: Seq<NodeModel>,
    probes: Seq<ProbeModel>,
    sample_of: spec_fn((u32, u32, u32)) -> TriSample,
    n: usize,
    h: KdHit,
)
    requires
        probes.len() == tree.len(),
        faithful(tree, probes, sample_of),
        found(tree, probes, n, h),
    ensures
        held(tree, n, h.tri),
        h == hit_of(h.tri, sample_of(h.tri)),
        hits_at(sample_of(h.tri), h.t),
    decreases tree.len() - n,
{
    match tree[n as int].kind {
        KindModel::Leaf(tris) => {
            let samples = probes[n as int].samples;
            let j = choose|j: int|
                0 <= j < sampled(tris, samples) && h == hit_of(tris[j], #[trigger] samples[j])
                    && hits_at(samples[j], h.t);
            assert(tree[n as int].kind == KindModel::Leaf(tris));
            assert(samples[j] == sample_of(tris[j]));
            assert(tris.contains(tris[j]));
        },
        KindModel::Internal { left, right, axis, split } => {
            if found(tree, probes, left, h) {
                found_is_in_the_list(tree, probes, sample_of, left, h);
            } else {
                found_is_in_the_list(tree, probes, sample_of, right, h);
            }
        },
    }
}

proof fn held_hit_occurs(
    tree: Seq<NodeModel>,
    probes: Seq<ProbeModel>,
    sample_of: spec_fn((u32, u32, u32)) -> TriSample,
    n: usize,
    tri: (u32, u32, u32),
)
    requires
        probes.len() == tree.len(),
        faithful(tree, probes, sample_of),
        held(tree, n, tri),
        hits_at(sample_of(tri), sample_of(tri).t),
    ensures
        occurs(tree, probes, n, sample_of(tri).t),
    decreases tree.len() - n,
{
    match tree[n as int].kind {
        KindModel::Leaf(tris) => {
            let samples = probes[n as int].samples;
            let j = choose|j: int| 0 <= j < tris.len() && tris[j] == tri;
            assert(tree[n as int].kind == KindModel::Leaf(tris));
            assert(samples[j] == sample_of(tris[j]));
            assert(hits_at(samples[j], sample_of(tri).t));
        },
        KindModel::Internal { left, right, axis, split } => {
            if held(tree, left, tri) {
                held_hit_occurs(tree, probes, sample_of, left, tri);
            } else {
                held_hit_occurs(tree, probes, sample_of, right, tri);
            }
        },
    }
}

/// The search of the index of a mesh returns what a scan of every triangle
/// of the mesh returns.
///
/// `list` holds the triangles of the mesh and `sample_of` what the ray
/// yields for each of them. The tree holds exactly the triangles of the
/// list, as a built index does, the probes hold the samples of the triangles
/// they stand for, and the numbers are geometrically consistent. Then: where
/// the search finds a hit, it is the hit of a triangle of the list, and no
/// triangle of the list is hit nearer; where it finds none, no triangle of
/// the list is hit.
pub proof fn search_scans_the_mesh(
    tree: Seq<NodeModel>,
    probes: Seq<ProbeModel>,
    list: Seq<(u32, u32, u32)>,
    sample_of: spec_fn((u32, u32, u32)) -> TriSample,
)
    requires
        tree_shaped(tree),
        probes.len() == tree.len(),
        forall|t: (u32, u32, u32)| held(tree, 0, t) <==> #[trigger] list.contains(t),
        faithful(tree, probes, sample_of),
        consistent(tree, probes),
    ensures
        match nearest(tree, probes) {
            Some(h) => {
                &&& in_front(h.t)
                &&& list.contains(h.tri)
                &&& h == hit_of(h.tri, sample_of(h.tri))
                &&& sample_of(h.tri).accepts()
                &&& forall|i: int|
                    0 <= i < list.len() && hits_at(
                        sample_of(#[trigger] list[i]),
                        sample_of(list[i]).t,
                    ) ==> !sample_of(list[i]).t.lt(h.t)
            },
            None => forall|i: int|
                0 <= i < list.len() ==> !hits_at(
                    sample_of(#[trigger] list[i]),
                    sample_of(list[i]).t,
                ),
        },
{
    search_finds_the_nearest(tree, probes);
    assert forall|i: int|
        0 <= i < list.len() && hits_at(
            sample_of(#[trigger] list[i]),
            sample_of(list[i]).t,
        ) implies occurs(tree, probes, 0, sample_of(list[i]).t) by {
        assert(list.contains(list[i]));
        held_hit_occurs(tree, probes, sample_of, 0, list[i]);
    }
    match AABB::hit(probes[0].t0s, probes[0].t1s) {
        Some((t_min, t_max)) => {
            visit_returns_a_found_hit(tree, probes, 0, t_min, t_max, None);
            if nearest(tree, probes) is Some {
                found_is_in_the_list(tree, probes, sample_of, 0, nearest(tree, probes)->Some_0);
            }
        },
        None => {},
    }
}

} // verus!
