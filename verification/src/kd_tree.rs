//! The spatial index over a mesh's triangles: a binary tree whose inner
//! nodes cut space by an axis-aligned plane and whose leaves list triangles.
//!
//! The nodes live in one array and name their children by position. A child
//! always stands behind its parent, so every walk down the tree ends.

use vstd::prelude::*;
use crate::mesh::AABB;
use crate::scalar::Scalar;
use crate::vec::Vec3;

verus! {

/// What a node is: a cut with two children, or a list of triangles.
#[derive(Debug)]
pub enum KDNodeKind {
    /// The positions of the two children, the axis of the cutting plane and
    /// the plane's coordinate on that axis. `left` holds what reaches below
    /// the plane, `right` what reaches above it, and both hold what lies in
    /// the plane.
    Internal { left: usize, right: usize, axis: u32, split: Scalar },
    /// The triangles of a leaf, each as three vertex positions.
    Leaf(Vec<(u32, u32, u32)>),
}

/// A node of the tree with the bounding box of what stands below it.
#[derive(Debug)]
pub struct KDNode {
    pub aabb: AABB,
    pub kind: KDNodeKind,
}

/// The mathematical content of a [`KDNodeKind`].
pub enum KindModel {
    Internal { left: usize, right: usize, axis: u32, split: Scalar },
    Leaf(Seq<(u32, u32, u32)>),
}

/// The mathematical content of a [`KDNode`].
pub struct NodeModel {
    pub aabb: AABB,
    pub kind: KindModel,
}

impl View for KDNodeKind {
    type V = KindModel;

    open spec fn view(&self) -> KindModel {
        match self {
            KDNodeKind::Internal { left, right, axis, split } => KindModel::Internal {
                left: *left,
                right: *right,
                axis: *axis,
                split: *split,
            },
            KDNodeKind::Leaf(tris) => KindModel::Leaf(tris@),
        }
    }
}

impl View for KDNode {
    type V = NodeModel;

    open spec fn view(&self) -> NodeModel {
        NodeModel { aabb: self.aabb, kind: self.kind@ }
    }
}

/// Whether all three corners of every triangle are positions in a vertex
/// array of length `n`.
pub open spec fn triangles_in_range(tris: Seq<(u32, u32, u32)>, n: nat) -> bool {
    forall|k: int|
        0 <= k < tris.len() ==> (#[trigger] tris[k]).0 < n && tris[k].1 < n && tris[k].2 < n
}

/// Whether node `i` is shaped as the tree requires: the children of a cut
/// stand behind it in the array and its axis is 0, 1 or 2.
pub open spec fn node_shaped(t: Seq<NodeModel>, i: int) -> bool {
    match t[i].kind {
        KindModel::Internal { left, right, axis, split } => {
            &&& i < left < t.len()
            &&& i < right < t.len()
            &&& axis < 3
        },
        KindModel::Leaf(_) => true,
    }
}

/// Whether the array is a tree: it has a root, and every node is shaped.
pub open spec fn tree_shaped(t: Seq<NodeModel>) -> bool {
    &&& t.len() >= 1
    &&& forall|i: int| 0 <= i < t.len() ==> node_shaped(t, i)
}

/// Whether every triangle of every leaf names vertices below `n`.
pub open spec fn tree_in_range(t: Seq<NodeModel>, n: nat) -> bool {
    forall|i: int|
        0 <= i < t.len() ==> match (#[trigger] t[i]).kind {
            KindModel::Leaf(tris) => triangles_in_range(tris, n),
            KindModel::Internal { .. } => true,
        }
}

/// The tree over a mesh's triangles. The root is node 0.
#[derive(Debug)]
pub struct KDTree {
    nodes: Vec<KDNode>,
}

/// The mathematical content of an array of nodes.
pub open spec fn models(nodes: Seq<KDNode>) -> Seq<NodeModel> {
    Seq::new(nodes.len(), |i: int| nodes[i]@)
}

impl View for KDTree {
    type V = Seq<NodeModel>;

    closed spec fn view(&self) -> Seq<NodeModel> {
        models(self.nodes@)
    }
}

impl KDTree {
    /// The invariant of the type: the nodes form a tree.
    pub open spec fn wf(&self) -> bool {
        tree_shaped(self@)
    }

    /// The tree over the given nodes.
    pub(crate) fn from_nodes(nodes: Vec<KDNode>) -> (t: KDTree)
        ensures
            t@ == models(nodes@),
    {
        KDTree { nodes }
    }

    /// The number of nodes.
    pub fn len(&self) -> (n: usize)
        ensures
            n == self@.len(),
    {
        self.nodes.len()
    }

    /// The node at position `i`.
    pub fn node(&self, i: usize) -> (n: &KDNode)
        requires
            i < self@.len(),
        ensures
            n@ == self@[i as int],
    {
        &self.nodes[i]
    }
}

/// The corner of a triangle that lies lowest on an axis.
pub open spec fn triangle_min(v: Seq<Vec3>, t: (u32, u32, u32), axis: int) -> Scalar {
    v[t.0 as int].spec_get(axis).min(v[t.1 as int].spec_get(axis)).min(
        v[t.2 as int].spec_get(axis),
    )
}

/// The corner of a triangle that lies highest on an axis.
pub open spec fn triangle_max(v: Seq<Vec3>, t: (u32, u32, u32), axis: int) -> Scalar {
    v[t.0 as int].spec_get(axis).max(v[t.1 as int].spec_get(axis)).max(
        v[t.2 as int].spec_get(axis),
    )
}

/// Whether no vertex has a NaN coordinate.
pub open spec fn vertices_numeric(v: Seq<Vec3>) -> bool {
    forall|i: int| 0 <= i < v.len() ==> !(#[trigger] v[i]).has_nan()
}

/// The bounding box of the corners of a list of triangles.
pub open spec fn bounds(tris: Seq<(u32, u32, u32)>, v: Seq<Vec3>) -> AABB
    decreases tris.len(),
{
    if tris.len() == 0 {
        AABB::empty()
    } else {
        let t = tris.last();
        bounds(tris.drop_last(), v).grow(v[t.0 as int]).grow(v[t.1 as int]).grow(v[t.2 as int])
    }
}

/// Computes [`triangle_min`].
pub fn lowest(v: &Vec<Vec3>, t: (u32, u32, u32), axis: usize) -> (s: Scalar)
    requires
        axis < 3,
        t.0 < v.len(),
        t.1 < v.len(),
        t.2 < v.len(),
    ensures
        s == triangle_min(v@, t, axis as int),
{
    v[t.0 as usize].get(axis).min(v[t.1 as usize].get(axis)).min(v[t.2 as usize].get(axis))
}

/// Computes [`triangle_max`].
pub fn highest(v: &Vec<Vec3>, t: (u32, u32, u32), axis: usize) -> (s: Scalar)
    requires
        axis < 3,
        t.0 < v.len(),
        t.1 < v.len(),
        t.2 < v.len(),
    ensures
        s == triangle_max(v@, t, axis as int),
{
    v[t.0 as usize].get(axis).max(v[t.1 as usize].get(axis)).max(v[t.2 as usize].get(axis))
}

/// Computes [`bounds`].
pub fn bounding_box(tris: &Vec<(u32, u32, u32)>, v: &Vec<Vec3>) -> (b: AABB)
    requires
        triangles_in_range(tris@, v@.len()),
    ensures
        b == bounds(tris@, v@),
{
    let mut b = AABB::empty();
    let mut i: usize = 0;
    while i < tris.len()
        invariant
            i <= tris.len(),
            triangles_in_range(tris@, v@.len()),
            b == bounds(tris@.take(i as int), v@),
        decreases tris.len() - i,
    {
        proof {
            assert(tris@.take(i + 1).drop_last() =~= tris@.take(i as int));
        }
        let t = tris[i];
        b = b.grow(v[t.0 as usize]).grow(v[t.1 as usize]).grow(v[t.2 as usize]);
        i += 1;
    }
    proof {
        assert(tris@.take(i as int) =~= tris@);
    }
    b
}

/// `s` with `x` put in behind every element whose key is not above its own.
pub open spec fn insert_by_key(
    s: Seq<(i64, (u32, u32, u32))>,
    x: (i64, (u32, u32, u32)),
) -> Seq<(i64, (u32, u32, u32))>
    decreases s.len(),
{
    if s.len() == 0 {
        seq![x]
    } else if s.last().0 <= x.0 {
        s.push(x)
    } else {
        insert_by_key(s.drop_last(), x).push(s.last())
    }
}

/// The elements of `s` in ascending order of their keys, those with equal
/// keys in the order in which they stand in `s`.
pub open spec fn stable_sorted(s: Seq<(i64, (u32, u32, u32))>) -> Seq<(i64, (u32, u32, u32))>
    decreases s.len(),
{
    if s.len() == 0 {
        s
    } else {
        insert_by_key(stable_sorted(s.drop_last()), s.last())
    }
}

/// Whether the keys never fall from one element to the next.
pub open spec fn ascending(s: Seq<(i64, (u32, u32, u32))>) -> bool {
    forall|i: int, j: int| 0 <= i <= j < s.len() ==> s[i].0 <= s[j].0
}

/// Sorts by the first component with the standard library's
/// `slice::sort_by_key`, which is documented to sort in ascending order of
/// the keys and to keep the initial order of elements with equal keys. There
/// is only one such arrangement, and [`stable_sorted`] describes it. The keys
/// are machine integers, whose order is total.
#[verifier::external_body]
fn sort_by_key(items: &mut Vec<(i64, (u32, u32, u32))>)
    ensures
        final(items)@ == stable_sorted(old(items)@),
{
    items.sort_by_key(|e| e.0);
}

proof fn insert_by_key_facts(s: Seq<(i64, (u32, u32, u32))>, x: (i64, (u32, u32, u32)))
    ensures
        insert_by_key(s, x).len() == s.len() + 1,
        insert_by_key(s, x).to_multiset() =~= s.to_multiset().insert(x),
        ascending(s) ==> ascending(insert_by_key(s, x)),
        s.len() > 0 ==> insert_by_key(s, x).last() == s.last() || insert_by_key(s, x).last() == x,
    decreases s.len(),
{
    broadcast use vstd::seq_lib::to_multiset_build;

    if s.len() == 0 {
        assert(seq![x] =~= Seq::<(i64, (u32, u32, u32))>::empty().push(x));
        assert(s =~= Seq::<(i64, (u32, u32, u32))>::empty());
    } else if s.last().0 <= x.0 {
    } else {
        let head = s.drop_last();
        insert_by_key_facts(head, x);
        assert(s =~= head.push(s.last()));
        if ascending(s) {
            let r = insert_by_key(head, x);
            assert(ascending(head));
            let out = r.push(s.last());
            assert forall|i: int, j: int| 0 <= i <= j < out.len() implies out[i].0 <= out[j].0 by {
                if j == out.len() - 1 && i < j {
                    // every element of `r` is `x` or an element of `head`
                    assert(r.to_multiset().count(r[i]) > 0) by {
                        r.to_multiset_ensures();
                        assert(r.contains(r[i]));
                    }
                    if r[i] != x {
                        assert(head.to_multiset().count(r[i]) > 0);
                        head.to_multiset_ensures();
                        assert(head.contains(r[i]));
                        let k = choose|k: int| 0 <= k < head.len() && head[k] == r[i];
                        assert(s[k] == head[k]);
                    }
                }
            }
        }
    }
}

/// Sorting rearranges and orders: the sorted sequence holds the same
/// elements the same number of times, and its keys ascend.
pub proof fn stable_sorted_facts(s: Seq<(i64, (u32, u32, u32))>)
    ensures
        stable_sorted(s).len() == s.len(),
        stable_sorted(s).to_multiset() =~= s.to_multiset(),
        ascending(stable_sorted(s)),
    decreases s.len(),
{
    broadcast use vstd::seq_lib::to_multiset_build;

    if s.len() > 0 {
        stable_sorted_facts(s.drop_last());
        insert_by_key_facts(stable_sorted(s.drop_last()), s.last());
        assert(s =~= s.drop_last().push(s.last()));
    }
}

/// Every element of the sorted sequence stands somewhere in the sequence
/// that was sorted.
pub proof fn stable_sorted_member(s: Seq<(i64, (u32, u32, u32))>, i: int) -> (j: int)
    requires
        0 <= i < s.len(),
    ensures
        0 <= j < s.len(),
        s[j] == stable_sorted(s)[i],
{
    stable_sorted_facts(s);
    let r = stable_sorted(s);
    r.to_multiset_ensures();
    s.to_multiset_ensures();
    assert(r.contains(r[i]));
    assert(r.to_multiset().count(r[i]) > 0);
    assert(s.to_multiset().count(r[i]) > 0);
    assert(s.contains(r[i]));
    choose|j: int| 0 <= j < s.len() && s[j] == r[i]
}

/// Each triangle paired with the rank of its lowest corner on the axis.
pub open spec fn keyed(tris: Seq<(u32, u32, u32)>, v: Seq<Vec3>, axis: int) -> Seq<
    (i64, (u32, u32, u32)),
> {
    Seq::new(tris.len(), |i: int| (triangle_min(v, tris[i], axis).rank() as i64, tris[i]))
}

/// The triangles of a keyed sequence.
pub open spec fn unkeyed(s: Seq<(i64, (u32, u32, u32))>) -> Seq<(u32, u32, u32)> {
    Seq::new(s.len(), |i: int| s[i].1)
}

/// The triangles in ascending order of their lowest corner on the axis,
/// those that tie in the order in which they came.
pub open spec fn sorted_on(tris: Seq<(u32, u32, u32)>, v: Seq<Vec3>, axis: int) -> Seq<
    (u32, u32, u32),
> {
    unkeyed(stable_sorted(keyed(tris, v, axis)))
}

/// The cutting plane: the lowest corner of the median triangle.
pub open spec fn plane_of(tris: Seq<(u32, u32, u32)>, v: Seq<Vec3>, axis: int) -> Scalar {
    triangle_min(v, sorted_on(tris, v, axis)[tris.len() as int / 2], axis)
}

/// Whether a triangle reaches neither below nor above the plane: it lies
/// flat in the plane, or has a corner that is not a number.
pub open spec fn beside_plane(v: Seq<Vec3>, t: (u32, u32, u32), axis: int, plane: Scalar) -> bool {
    !triangle_min(v, t, axis).lt(plane) && !triangle_max(v, t, axis).gt(plane)
}

/// Whether a triangle belongs on the lower side of the plane: it has a
/// corner strictly below the plane, or it lies in the plane.
pub open spec fn lies_left(v: Seq<Vec3>, t: (u32, u32, u32), axis: int, plane: Scalar) -> bool {
    triangle_min(v, t, axis).lt(plane) || beside_plane(v, t, axis, plane)
}

/// Whether a triangle belongs on the upper side of the plane: it has a
/// corner strictly above the plane, or it lies in the plane.
pub open spec fn lies_right(v: Seq<Vec3>, t: (u32, u32, u32), axis: int, plane: Scalar) -> bool {
    triangle_max(v, t, axis).gt(plane) || beside_plane(v, t, axis, plane)
}

/// The triangles that belong on the lower side of the plane.
pub open spec fn goes_left(v: Seq<Vec3>, axis: int, plane: Scalar) -> spec_fn(
    (u32, u32, u32),
) -> bool {
    |t: (u32, u32, u32)| lies_left(v, t, axis, plane)
}

/// The triangles that belong on the upper side of the plane.
pub open spec fn goes_right(v: Seq<Vec3>, axis: int, plane: Scalar) -> spec_fn(
    (u32, u32, u32),
) -> bool {
    |t: (u32, u32, u32)| lies_right(v, t, axis, plane)
}

/// What goes to the left child: the sorted triangles that belong on the
/// lower side of the plane.
pub open spec fn left_of(tris: Seq<(u32, u32, u32)>, v: Seq<Vec3>, axis: int) -> Seq<
    (u32, u32, u32),
> {
    sorted_on(tris, v, axis).filter(goes_left(v, axis, plane_of(tris, v, axis)))
}

/// What goes to the right child: the sorted triangles that belong on the
/// upper side of the plane. A triangle that straddles the plane goes to both
/// children, and so does one that lies in the plane.
pub open spec fn right_of(tris: Seq<(u32, u32, u32)>, v: Seq<Vec3>, axis: int) -> Seq<
    (u32, u32, u32),
> {
    sorted_on(tris, v, axis).filter(goes_right(v, axis, plane_of(tris, v, axis)))
}

/// Sorting on an axis rearranges the triangles: none is lost, none is made
/// up, and the lowest corners ascend.
pub proof fn sorted_on_facts(tris: Seq<(u32, u32, u32)>, v: Seq<Vec3>, axis: int)
    ensures
        sorted_on(tris, v, axis).len() == tris.len(),
        forall|i: int|
            0 <= i < tris.len() ==> tris.contains(#[trigger] sorted_on(tris, v, axis)[i]),
        forall|i: int|
            0 <= i < tris.len() ==> sorted_on(tris, v, axis).contains(#[trigger] tris[i]),
        forall|i: int, j: int|
            0 <= i <= j < tris.len() ==> triangle_min(v, sorted_on(tris, v, axis)[i], axis).rank()
                <= triangle_min(v, sorted_on(tris, v, axis)[j], axis).rank(),
{
    let k = keyed(tris, v, axis);
    let r = stable_sorted(k);
    let out = sorted_on(tris, v, axis);
    stable_sorted_facts(k);
    assert forall|i: int| 0 <= i < tris.len() implies tris.contains(#[trigger] out[i]) && r[i].0
        == triangle_min(v, out[i], axis).rank() by {
        let j = stable_sorted_member(k, i);
        assert(tris[j] == out[i]);
    }
    assert forall|i: int| 0 <= i < tris.len() implies out.contains(#[trigger] tris[i]) by {
        k.to_multiset_ensures();
        r.to_multiset_ensures();
        assert(k.contains(k[i]));
        assert(k.to_multiset().count(k[i]) > 0);
        assert(r.to_multiset().count(k[i]) > 0);
        assert(r.contains(k[i]));
        let j = choose|j: int| 0 <= j < r.len() && r[j] == k[i];
        assert(out[j] == tris[i]);
    }
    assert forall|i: int, j: int| 0 <= i <= j < tris.len() implies triangle_min(
        v,
        out[i],
        axis,
    ).rank() <= triangle_min(v, out[j], axis).rank() by {
        assert(r[i].0 <= r[j].0);
    }
}

/// A cut parts the triangles by the plane and loses none. What goes left is
/// what came in and belongs on the lower side; what goes right is what came
/// in and belongs on the upper side; and every triangle that came in goes
/// left, right or both ways.
pub proof fn cut_parts_the_triangles(tris: Seq<(u32, u32, u32)>, v: Seq<Vec3>, axis: int)
    requires
        tris.len() >= 1,
    ensures
        forall|t: (u32, u32, u32)| #[trigger]
            left_of(tris, v, axis).contains(t) <==> tris.contains(t) && lies_left(
                v,
                t,
                axis,
                plane_of(tris, v, axis),
            ),
        forall|t: (u32, u32, u32)| #[trigger]
            right_of(tris, v, axis).contains(t) <==> tris.contains(t) && lies_right(
                v,
                t,
                axis,
                plane_of(tris, v, axis),
            ),
        forall|t: (u32, u32, u32)| #[trigger]
            tris.contains(t) ==> left_of(tris, v, axis).contains(t) || right_of(
                tris,
                v,
                axis,
            ).contains(t),
{
    let sorted = sorted_on(tris, v, axis);
    let plane = plane_of(tris, v, axis);
    let lower = goes_left(v, axis, plane);
    let upper = goes_right(v, axis, plane);
    let left = left_of(tris, v, axis);
    let right = right_of(tris, v, axis);
    sorted_on_facts(tris, v, axis);
    assert forall|t: (u32, u32, u32)| #[trigger] left.contains(t) implies tris.contains(t)
        && lies_left(v, t, axis, plane) by {
        sorted.lemma_filter_contains_rev(lower, t);
        let i = choose|i: int| 0 <= i < left.len() && left[i] == t;
        sorted.lemma_filter_pred(lower, i);
        let j = choose|j: int| 0 <= j < sorted.len() && sorted[j] == t;
        assert(tris.contains(sorted[j]));
        assert(lower(t));
    }
    assert forall|t: (u32, u32, u32)| #[trigger] right.contains(t) implies tris.contains(t)
        && lies_right(v, t, axis, plane) by {
        sorted.lemma_filter_contains_rev(upper, t);
        let i = choose|i: int| 0 <= i < right.len() && right[i] == t;
        sorted.lemma_filter_pred(upper, i);
        let j = choose|j: int| 0 <= j < sorted.len() && sorted[j] == t;
        assert(tris.contains(sorted[j]));
        assert(upper(t));
    }
    assert forall|t: (u32, u32, u32)| tris.contains(t) implies (lies_left(v, t, axis, plane)
        ==> #[trigger] left.contains(t)) && (lies_right(v, t, axis, plane) ==> right.contains(t))
        by {
        let i = choose|i: int| 0 <= i < tris.len() && tris[i] == t;
        assert(sorted.contains(tris[i]));
        let j = choose|j: int| 0 <= j < sorted.len() && sorted[j] == t;
        if lower(t) {
            sorted.lemma_filter_contains(lower, j);
        }
        if upper(t) {
            sorted.lemma_filter_contains(upper, j);
        }
    }
    assert forall|t: (u32, u32, u32)| #[trigger] tris.contains(t) implies left.contains(t)
        || right.contains(t) by {
        assert(lies_left(v, t, axis, plane) || lies_right(v, t, axis, plane));
        if lies_left(v, t, axis, plane) {
            assert(left.contains(t));
        } else {
            assert(right.contains(t));
        }
    }
}

/// One cut of a list of triangles.
#[derive(Debug)]
pub struct Partition {
    /// The triangles in ascending order of their lowest corner.
    pub sorted: Vec<(u32, u32, u32)>,
    /// The coordinate of the cutting plane.
    pub plane: Scalar,
    /// The triangles that reach below the plane or lie in it.
    pub left: Vec<(u32, u32, u32)>,
    /// The triangles that reach above the plane or lie in it.
    pub right: Vec<(u32, u32, u32)>,
}

/// Cuts a list of triangles at the median of their lowest corners on the
/// given axis.
pub fn partition(tris: &Vec<(u32, u32, u32)>, v: &Vec<Vec3>, axis: usize) -> (p: Partition)
    requires
        axis < 3,
        tris.len() >= 1,
        triangles_in_range(tris@, v@.len()),
    ensures
        p.sorted@ == sorted_on(tris@, v@, axis as int),
        p.plane == plane_of(tris@, v@, axis as int),
        p.left@ == left_of(tris@, v@, axis as int),
        p.right@ == right_of(tris@, v@, axis as int),
        triangles_in_range(p.sorted@, v@.len()),
        triangles_in_range(p.left@, v@.len()),
        triangles_in_range(p.right@, v@.len()),
{
    let n = tris.len();
    let mut items: Vec<(i64, (u32, u32, u32))> = Vec::new();
    let mut i: usize = 0;
    while i < n
        invariant
            i <= n,
            n == tris.len(),
            axis < 3,
            triangles_in_range(tris@, v@.len()),
            items@ == keyed(tris@.take(i as int), v@, axis as int),
        decreases n - i,
    {
        let t = tris[i];
        items.push((lowest(v, t, axis).key(), t));
        i += 1;
        proof {
            assert(items@ =~= keyed(tris@.take(i as int), v@, axis as int));
        }
    }
    proof {
        assert(tris@.take(n as int) =~= tris@);
        sorted_on_facts(tris@, v@, axis as int);
    }
    sort_by_key(&mut items);
    let mut sorted: Vec<(u32, u32, u32)> = Vec::new();
    let mut i: usize = 0;
    while i < n
        invariant
            i <= n,
            n == items.len(),
            sorted@ == unkeyed(items@.take(i as int)),
        decreases n - i,
    {
        sorted.push(items[i].1);
        i += 1;
        proof {
            assert(sorted@ =~= unkeyed(items@.take(i as int)));
        }
    }
    proof {
        assert(items@.take(n as int) =~= items@);
        assert forall|k: int| 0 <= k < sorted@.len() implies (#[trigger] sorted@[k]).0 < v@.len()
            && sorted@[k].1 < v@.len() && sorted@[k].2 < v@.len() by {
            assert(tris@.contains(sorted@[k]));
        }
    }
    let plane = lowest(v, sorted[n / 2], axis);
    let mut left: Vec<(u32, u32, u32)> = Vec::new();
    let mut right: Vec<(u32, u32, u32)> = Vec::new();
    let ghost below = goes_left(v@, axis as int, plane);
    let ghost above = goes_right(v@, axis as int, plane);
    let mut i: usize = 0;
    while i < n
        invariant
            i <= n,
            n == sorted.len(),
            axis < 3,
            below == goes_left(v@, axis as int, plane),
            above == goes_right(v@, axis as int, plane),
            triangles_in_range(sorted@, v@.len()),
            triangles_in_range(left@, v@.len()),
            triangles_in_range(right@, v@.len()),
            left@ == sorted@.take(i as int).filter(below),
            right@ == sorted@.take(i as int).filter(above),
        decreases n - i,
    {
        let t = sorted[i];
        proof {
            assert(sorted@.take(i + 1) =~= sorted@.take(i as int).push(t));
            sorted@.take(i as int).lemma_filter_push(t, below);
            sorted@.take(i as int).lemma_filter_push(t, above);
        }
        let reaches_below = lowest(v, t, axis).lt(plane);
        let reaches_above = highest(v, t, axis).gt(plane);
        if reaches_below || !reaches_above {
            left.push(t);
        }
        if reaches_above || !reaches_below {
            right.push(t);
        }
        i += 1;
    }
    proof {
        assert(sorted@.take(n as int) =~= sorted@);
    }
    Partition { sorted, plane, left, right }
}

/// Whether the triangle `t` stands in a leaf below node `n`.
pub open spec fn held(tree: Seq<NodeModel>, n: usize, t: (u32, u32, u32)) -> bool
    decreases tree.len() - n,
{
    if n >= tree.len() {
        false
    } else {
        match tree[n as int].kind {
            KindModel::Leaf(tris) => tris.contains(t),
            KindModel::Internal { left, right, axis, split } => {
                if n < left < tree.len() && n < right < tree.len() {
                    held(tree, left, t) || held(tree, right, t)
                } else {
                    false
                }
            },
        }
    }
}

/// Whether the three corners of a triangle lie in a box.
pub open spec fn corners_inside(b: AABB, v: Seq<Vec3>, t: (u32, u32, u32)) -> bool {
    b.contains(v[t.0 as int]) && b.contains(v[t.1 as int]) && b.contains(v[t.2 as int])
}

/// Whether `list` names exactly the triangles that stand below node `n`, and
/// the box of the node is the bounding box of that list.
pub open spec fn boxed_by(
    tree: Seq<NodeModel>,
    v: Seq<Vec3>,
    n: usize,
    list: Seq<(u32, u32, u32)>,
) -> bool {
    &&& tree[n as int].aabb == bounds(list, v)
    &&& forall|t: (u32, u32, u32)| held(tree, n, t) <==> #[trigger] list.contains(t)
}

/// Whether node `n` indexes the triangles below it: its box is the bounding
/// box of exactly those triangles, and if it is a cut, its left child holds
/// exactly those of them that belong on the lower side of the cutting plane
/// and its right child exactly those that belong on the upper side.
pub open spec fn node_indexes(tree: Seq<NodeModel>, v: Seq<Vec3>, n: usize) -> bool {
    &&& exists|list: Seq<(u32, u32, u32)>| #[trigger] boxed_by(tree, v, n, list)
    &&& tree[n as int].kind matches KindModel::Internal { left, right, axis, split } ==> {
        &&& forall|t: (u32, u32, u32)| #[trigger]
            held(tree, left, t) <==> held(tree, n, t) && lies_left(v, t, axis as int, split)
        &&& forall|t: (u32, u32, u32)| #[trigger]
            held(tree, right, t) <==> held(tree, n, t) && lies_right(v, t, axis as int, split)
    }
}

/// Whether the tree indexes its triangles over the vertices `v`.
pub open spec fn indexes(tree: Seq<NodeModel>, v: Seq<Vec3>) -> bool {
    forall|n: usize| n < tree.len() ==> #[trigger] node_indexes(tree, v, n)
}

proof fn grown_box_holds(b: AABB, p: Vec3, q: Vec3)
    requires
        b.is_numeric(),
        !p.has_nan(),
    ensures
        b.grow(q).is_numeric(),
        !q.has_nan() ==> b.grow(q).contains(q),
        b.contains(p) ==> b.grow(q).contains(p),
{
}

proof fn bounds_are_numbers(tris: Seq<(u32, u32, u32)>, v: Seq<Vec3>)
    ensures
        bounds(tris, v).is_numeric(),
    decreases tris.len(),
{
    if tris.len() > 0 {
        let t = tris.last();
        bounds_are_numbers(tris.drop_last(), v);
        let b0 = bounds(tris.drop_last(), v);
        let b1 = b0.grow(v[t.0 as int]);
        let b2 = b1.grow(v[t.1 as int]);
        let zero = Vec3::zero();
        grown_box_holds(b0, zero, v[t.0 as int]);
        grown_box_holds(b1, zero, v[t.1 as int]);
        grown_box_holds(b2, zero, v[t.2 as int]);
    }
}

/// The bounding box of a list of triangles has corners that are numbers, and
/// it holds every corner of every triangle of the list whose corners are
/// numbers.
pub proof fn bounds_hold_a_triangle(tris: Seq<(u32, u32, u32)>, v: Seq<Vec3>, i: int)
    requires
        0 <= i < tris.len(),
        !v[tris[i].0 as int].has_nan(),
        !v[tris[i].1 as int].has_nan(),
        !v[tris[i].2 as int].has_nan(),
    ensures
        bounds(tris, v).is_numeric(),
        corners_inside(bounds(tris, v), v, tris[i]),
    decreases tris.len(),
{
    let head = tris.drop_last();
    let t = tris.last();
    let s = tris[i];
    bounds_are_numbers(head, v);
    bounds_are_numbers(tris, v);
    let b0 = bounds(head, v);
    let b1 = b0.grow(v[t.0 as int]);
    let b2 = b1.grow(v[t.1 as int]);
    if i < tris.len() - 1 {
        bounds_hold_a_triangle(head, v, i);
        grown_box_holds(b0, v[s.0 as int], v[t.0 as int]);
        grown_box_holds(b0, v[s.1 as int], v[t.0 as int]);
        grown_box_holds(b0, v[s.2 as int], v[t.0 as int]);
        grown_box_holds(b1, v[s.0 as int], v[t.1 as int]);
        grown_box_holds(b1, v[s.1 as int], v[t.1 as int]);
        grown_box_holds(b1, v[s.2 as int], v[t.1 as int]);
        grown_box_holds(b2, v[s.0 as int], v[t.2 as int]);
        grown_box_holds(b2, v[s.1 as int], v[t.2 as int]);
        grown_box_holds(b2, v[s.2 as int], v[t.2 as int]);
    } else {
        grown_box_holds(b0, v[t.0 as int], v[t.0 as int]);
        grown_box_holds(b1, v[t.0 as int], v[t.1 as int]);
        grown_box_holds(b2, v[t.0 as int], v[t.2 as int]);
        grown_box_holds(b2, v[t.1 as int], v[t.2 as int]);
    }
}

/// One of the three corners of a triangle.
pub open spec fn corner(v: Seq<Vec3>, t: (u32, u32, u32), c: int) -> Vec3 {
    if c == 0 {
        v[t.0 as int]
    } else if c == 1 {
        v[t.1 as int]
    } else {
        v[t.2 as int]
    }
}

/// Whether a corner of a triangle of the list has the coordinate `x` on the
/// axis.
pub open spec fn attained(tris: Seq<(u32, u32, u32)>, v: Seq<Vec3>, axis: int, x: Scalar) -> bool {
    exists|i: int, c: int|
        0 <= i < tris.len() && 0 <= c < 3 && (#[trigger] corner(v, tris[i], c)).spec_get(axis) == x
}

/// Whether every coordinate of every corner of every triangle of the list is
/// a number strictly between the far distances.
pub open spec fn within_reach(tris: Seq<(u32, u32, u32)>, v: Seq<Vec3>) -> bool {
    forall|i: int, c: int, a: int|
        0 <= i < tris.len() && 0 <= c < 3 && 0 <= a < 3 ==> Scalar::from_bits(
            crate::scalar::NEG_FAR_BITS,
        ).lt(#[trigger] corner(v, tris[i], c).spec_get(a)) && corner(v, tris[i], c).spec_get(
            a,
        ).lt(Scalar::from_bits(crate::scalar::FAR_BITS))
}

/// The bounding box is tight. Of no triangles it is the box that holds
/// nothing, inside out on every axis. Of triangles within reach, each of its
/// extents is the coordinate of a corner of one of the triangles: together
/// with [`bounds_hold_a_triangle`], the lowest and the highest one.
pub proof fn bounds_are_tight(tris: Seq<(u32, u32, u32)>, v: Seq<Vec3>, axis: int)
    requires
        0 <= axis < 3,
        within_reach(tris, v),
    ensures
        tris.len() == 0 ==> bounds(tris, v) == AABB::empty() && bounds(tris, v).max.spec_get(
            axis,
        ).lt(bounds(tris, v).min.spec_get(axis)),
        tris.len() > 0 ==> attained(tris, v, axis, bounds(tris, v).min.spec_get(axis))
            && attained(tris, v, axis, bounds(tris, v).max.spec_get(axis)),
    decreases tris.len(),
{
    if tris.len() > 0 {
        let head = tris.drop_last();
        let t = tris.last();
        let last = tris.len() - 1;
        assert forall|i: int, c: int, a: int|
            0 <= i < head.len() && 0 <= c < 3 && 0 <= a < 3 implies Scalar::from_bits(
            crate::scalar::NEG_FAR_BITS,
        ).lt(#[trigger] corner(v, head[i], c).spec_get(a)) && corner(v, head[i], c).spec_get(
            a,
        ).lt(Scalar::from_bits(crate::scalar::FAR_BITS)) by {
            assert(head[i] == tris[i]);
            assert(Scalar::from_bits(crate::scalar::NEG_FAR_BITS).lt(
                corner(v, tris[i], c).spec_get(a),
            ));
        }
        bounds_are_tight(head, v, axis);
        let b0 = bounds(head, v);
        let b3 = bounds(tris, v);
        let p0 = corner(v, tris[last], 0).spec_get(axis);
        let p1 = corner(v, tris[last], 1).spec_get(axis);
        let p2 = corner(v, tris[last], 2).spec_get(axis);
        let lo = b3.min.spec_get(axis);
        let hi = b3.max.spec_get(axis);
        assert(lo == b0.min.spec_get(axis).min(p0).min(p1).min(p2));
        assert(hi == b0.max.spec_get(axis).max(p0).max(p1).max(p2));
        assert(lo == p0 || lo == p1 || lo == p2 || (head.len() > 0 && lo == b0.min.spec_get(
            axis,
        )));
        assert(hi == p0 || hi == p1 || hi == p2 || (head.len() > 0 && hi == b0.max.spec_get(
            axis,
        )));
        if head.len() > 0 && lo == b0.min.spec_get(axis) {
            let (i, c) = choose|i: int, c: int|
                0 <= i < head.len() && 0 <= c < 3 && (#[trigger] corner(v, head[i], c)).spec_get(
                    axis,
                ) == lo;
            assert(corner(v, tris[i], c).spec_get(axis) == lo);
        }
        if head.len() > 0 && hi == b0.max.spec_get(axis) {
            let (i, c) = choose|i: int, c: int|
                0 <= i < head.len() && 0 <= c < 3 && (#[trigger] corner(v, head[i], c)).spec_get(
                    axis,
                ) == hi;
            assert(corner(v, tris[i], c).spec_get(axis) == hi);
        }
    }
}

} // verus!
