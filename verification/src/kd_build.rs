//! Building the tree, one cut at a time.
//!
//! Which axis a list of triangles is cut on is the caller's choice: it takes
//! arithmetic to make, and any choice gives a tree that indexes the mesh.
//! Everything else is decided here: where the cutting plane lies, which
//! triangles go to which side, and when a list is left whole.

use vstd::prelude::*;
use crate::kd_tree::bounding_box;
use crate::kd_tree::bounds;
use crate::kd_tree::bounds_hold_a_triangle;
use crate::kd_tree::bounds_are_tight;
use crate::kd_tree::boxed_by;
use crate::kd_tree::corner;
use crate::kd_tree::lies_left;
use crate::kd_tree::lies_right;
use crate::kd_tree::corners_inside;
use crate::kd_tree::cut_parts_the_triangles;
use crate::kd_tree::held;
use crate::kd_tree::indexes;
use crate::kd_tree::left_of;
use crate::kd_tree::models;
use crate::kd_tree::node_indexes;
use crate::kd_tree::node_shaped;
use crate::kd_tree::partition;
use crate::kd_tree::plane_of;
use crate::kd_tree::right_of;
use crate::kd_tree::sorted_on;
use crate::kd_tree::sorted_on_facts;
use crate::kd_tree::tree_in_range;
use crate::kd_tree::tree_shaped;
use crate::kd_tree::triangles_in_range;
use crate::kd_tree::vertices_numeric;
use crate::kd_tree::KDNode;
use crate::kd_tree::KDNodeKind;
use crate::kd_tree::KDTree;
use crate::kd_tree::KindModel;
use crate::kd_tree::NodeModel;
use crate::kd_tree::Partition;
use crate::mesh::AABB;
use crate::scalar::Scalar;
use crate::scalar::FAR_BITS;
use crate::scalar::NEG_FAR_BITS;
use crate::vec::Vec3;

verus! {

/// A list shorter than this is not cut any further.
pub const LEAF_SIZE: usize = 16;

/// The number of levels to which the index of a mesh is cut.
pub const MESH_DEPTH: u32 = 16;

/// The mathematical content of a [`KdBuilder`]: the tree as it stands, and
/// the leaves that may still be cut, each with the depth left below it. The
/// last entry is the one cut next.
pub struct BuilderModel {
    pub nodes: Seq<NodeModel>,
    pub open: Seq<(usize, u32)>,
}

/// A leaf over the given triangles, with their bounding box.
pub open spec fn leaf_of(tris: Seq<(u32, u32, u32)>, v: Seq<Vec3>) -> NodeModel {
    NodeModel { aabb: bounds(tris, v), kind: KindModel::Leaf(tris) }
}

/// Whether a list of triangles is cut further: there is depth left, and the
/// list is not short.
pub open spec fn splittable(tris: Seq<(u32, u32, u32)>, dep: u32) -> bool {
    dep > 0 && tris.len() >= LEAF_SIZE
}

/// The builder before the first cut: one leaf that holds every triangle.
pub open spec fn seed(tris: Seq<(u32, u32, u32)>, v: Seq<Vec3>, dep: u32) -> BuilderModel {
    BuilderModel {
        nodes: seq![leaf_of(tris, v)],
        open: if splittable(tris, dep) {
            seq![(0usize, dep)]
        } else {
            Seq::empty()
        },
    }
}

/// The open entries that the two halves of a cut add: the right half first,
/// so that the left half is cut next.
pub open spec fn opened(
    left: Seq<(u32, u32, u32)>,
    right: Seq<(u32, u32, u32)>,
    at: usize,
    dep: u32,
) -> Seq<(usize, u32)> {
    let r = if splittable(right, dep) {
        seq![((at + 1) as usize, dep)]
    } else {
        Seq::empty()
    };
    let l = if splittable(left, dep) {
        seq![(at, dep)]
    } else {
        Seq::empty()
    };
    r + l
}

/// The builder after its last open leaf was cut on `axis`.
///
/// The leaf's triangles are sorted on the axis and cut at the median. Where
/// one side receives every triangle the cut makes no progress, and the leaf
/// stays a leaf for good, now in sorted order. Otherwise the leaf becomes a
/// cut, keeping its box, and two new leaves are appended for its halves.
pub open spec fn cut(m: BuilderModel, v: Seq<Vec3>, axis: int) -> BuilderModel
    recommends
        m.open.len() > 0,
{
    let (id, dep) = m.open.last();
    let rest = m.open.drop_last();
    let node = m.nodes[id as int];
    let tris = node.kind->Leaf_0;
    let left = left_of(tris, v, axis);
    let right = right_of(tris, v, axis);
    if left.len() == tris.len() || right.len() == tris.len() {
        BuilderModel {
            nodes: m.nodes.update(
                id as int,
                NodeModel { aabb: node.aabb, kind: KindModel::Leaf(sorted_on(tris, v, axis)) },
            ),
            open: rest,
        }
    } else {
        let at = m.nodes.len() as usize;
        BuilderModel {
            nodes: m.nodes.update(
                id as int,
                NodeModel {
                    aabb: node.aabb,
                    kind: KindModel::Internal {
                        left: at,
                        right: (at + 1) as usize,
                        axis: axis as u32,
                        split: plane_of(tris, v, axis),
                    },
                },
            ).push(leaf_of(left, v)).push(leaf_of(right, v)),
            open: rest + opened(left, right, at, (dep - 1) as u32),
        }
    }
}

/// Whether open entry `k` names a leaf of the tree that can be cut.
pub open spec fn open_entry_ok(m: BuilderModel, k: int) -> bool {
    let (id, dep) = m.open[k];
    &&& id < m.nodes.len()
    &&& dep > 0
    &&& m.nodes[id as int].kind is Leaf
    &&& m.nodes[id as int].kind->Leaf_0.len() >= 1
}

/// The invariant of a builder: its nodes form a tree, every open entry names
/// a leaf that can be cut, and no leaf is named twice.
pub open spec fn builder_wf(m: BuilderModel) -> bool {
    &&& tree_shaped(m.nodes)
    &&& forall|k: int| 0 <= k < m.open.len() ==> open_entry_ok(m, k)
    &&& forall|j: int, k: int| 0 <= j < k < m.open.len() ==> m.open[j].0 != m.open[k].0
}

/// Builds the tree cut by cut. The caller picks the axis of each cut; the
/// builder does the rest.
///
/// At every moment the nodes form a complete tree over the triangles: every
/// triangle that the builder was started with stands in a leaf, and no
/// other. [`KdBuilder::finish`] hands the tree out. While
/// [`KdBuilder::pending`] returns a list of triangles, that list can be cut
/// by [`KdBuilder::split`].
pub struct KdBuilder<'a> {
    v: &'a Vec<Vec3>,
    nodes: Vec<KDNode>,
    open: Vec<(usize, u32)>,
    list: Ghost<Seq<(u32, u32, u32)>>,
}

impl<'a> View for KdBuilder<'a> {
    type V = BuilderModel;

    closed spec fn view(&self) -> BuilderModel {
        BuilderModel { nodes: models(self.nodes@), open: self.open@ }
    }
}

impl<'a> KdBuilder<'a> {
    /// The vertices that the triangles name.
    pub closed spec fn vertices(&self) -> Seq<Vec3> {
        self.v@
    }

    /// The triangles that the builder was started with.
    pub closed spec fn triangles(&self) -> Seq<(u32, u32, u32)> {
        self.list@
    }

    /// The invariant of the type: the nodes form a tree that indexes
    /// triangles of the vertices, and the triangles that stand in its leaves
    /// are exactly those that the builder was started with.
    pub open spec fn wf(&self) -> bool {
        &&& builder_wf(self@)
        &&& tree_in_range(self@.nodes, self.vertices().len())
        &&& indexes(self@.nodes, self.vertices())
        &&& forall|t: (u32, u32, u32)|
            held(self@.nodes, 0, t) <==> #[trigger] self.triangles().contains(t)
    }

    /// Starts a tree over the triangles `index` of the vertices `v`, to be cut
    /// at most `dep` levels deep.
    pub fn new(index: Vec<(u32, u32, u32)>, v: &'a Vec<Vec3>, dep: u32) -> (b: KdBuilder<'a>)
        requires
            triangles_in_range(index@, v@.len()),
        ensures
            b@ == seed(index@, v@, dep),
            b.vertices() == v@,
            b.triangles() == index@,
            b.wf(),
    {
        let ghost list = index@;
        let aabb = bounding_box(&index, v);
        let is_open = dep > 0 && index.len() >= LEAF_SIZE;
        let mut nodes: Vec<KDNode> = Vec::new();
        nodes.push(KDNode { aabb, kind: KDNodeKind::Leaf(index) });
        let mut open: Vec<(usize, u32)> = Vec::new();
        if is_open {
            open.push((0, dep));
        }
        let b = KdBuilder { v, nodes, open, list: Ghost(list) };
        proof {
            assert(b@.nodes =~= seed(list, v@, dep).nodes);
            assert(b@.open =~= seed(list, v@, dep).open);
            seed_indexes(list, v@, dep);
            assert forall|t: (u32, u32, u32)|
                held(b@.nodes, 0, t) <==> #[trigger] list.contains(t) by {
                seed_holds_the_triangles(list, v@, dep, t);
            }
        }
        b
    }

    /// The triangles of the leaf that is cut next, or `None` when the tree is
    /// complete.
    pub fn pending(&self) -> (r: Option<&Vec<(u32, u32, u32)>>)
        requires
            self.wf(),
        ensures
            match r {
                Some(tris) => self@.open.len() > 0 && self@.nodes[self@.open.last().0 as int].kind
                    == KindModel::Leaf(tris@),
                None => self@.open.len() == 0,
            },
    {
        if self.open.len() == 0 {
            return None;
        }
        let (id, _) = self.open[self.open.len() - 1];
        proof {
            assert(open_entry_ok(self@, self@.open.len() - 1));
        }
        match &self.nodes[id].kind {
            KDNodeKind::Leaf(tris) => Some(tris),
            KDNodeKind::Internal { .. } => None,
        }
    }

    /// Cuts the pending leaf on the given axis.
    pub fn split(&mut self, axis: u32)
        requires
            old(self).wf(),
            old(self)@.open.len() > 0,
            axis < 3,
        ensures
            final(self)@ == cut(old(self)@, old(self).vertices(), axis as int),
            final(self).vertices() == old(self).vertices(),
            final(self).triangles() == old(self).triangles(),
            final(self).wf(),
    {
        let ghost before = self@;
        let ghost list = self.triangles();
        let v = self.v;
        proof {
            assert(open_entry_ok(before, before.open.len() - 1));
        }
        let (id, dep) = self.open.pop().unwrap();
        let aabb = self.nodes[id].aabb;
        let (p, n) = match &self.nodes[id].kind {
            KDNodeKind::Leaf(tris) => {
                proof {
                    assert(before.nodes[id as int].kind == KindModel::Leaf(tris@));
                }
                (partition(tris, v, axis as usize), tris.len())
            },
            KDNodeKind::Internal { .. } => {
                proof {
                    assert(false);
                }
                (
                    Partition {
                        sorted: Vec::new(),
                        plane: aabb.min.0,
                        left: Vec::new(),
                        right: Vec::new(),
                    },
                    0,
                )
            },
        };
        let Partition { sorted, plane, left, right } = p;
        if left.len() == n || right.len() == n {
            self.nodes.set(id, KDNode { aabb, kind: KDNodeKind::Leaf(sorted) });
            proof {
                let after = cut(before, v@, axis as int);
                assert(self@.nodes =~= after.nodes);
                assert(self@.open =~= after.open);
                assert forall|k: int| 0 <= k < self@.open.len() implies open_entry_ok(self@, k) by {
                    assert(open_entry_ok(before, k));
                }
                assert forall|i: int| 0 <= i < self@.nodes.len() implies node_shaped(
                    self@.nodes,
                    i,
                ) by {
                    assert(node_shaped(before.nodes, i));
                }
                assert(self@.nodes.len() == self.nodes.len());
                cut_keeps_the_index(before, v@, axis as int);
                assert(self.triangles() == list);
                assert forall|t: (u32, u32, u32)|
                    held(self@.nodes, 0, t) <==> #[trigger] list.contains(t) by {
                    cut_keeps_the_triangles(before, v@, axis as int, t);
                    assert(held(before.nodes, 0, t) <==> list.contains(t));
                }
            }
        } else {
            let open_left = dep - 1 > 0 && left.len() >= LEAF_SIZE;
            let open_right = dep - 1 > 0 && right.len() >= LEAF_SIZE;
            let left_box = bounding_box(&left, v);
            let right_box = bounding_box(&right, v);
            let at = self.nodes.len();
            self.nodes.push(KDNode { aabb: left_box, kind: KDNodeKind::Leaf(left) });
            let next = self.nodes.len();
            self.nodes.push(KDNode { aabb: right_box, kind: KDNodeKind::Leaf(right) });
            self.nodes.set(
                id,
                KDNode { aabb, kind: KDNodeKind::Internal { left: at, right: next, axis, split: plane } },
            );
            if open_right {
                self.open.push((next, dep - 1));
            }
            if open_left {
                self.open.push((at, dep - 1));
            }
            proof {
                let after = cut(before, v@, axis as int);
                assert(self@.nodes =~= after.nodes);
                assert(self@.open =~= after.open);
                assert forall|k: int| 0 <= k < self@.open.len() implies open_entry_ok(self@, k) by {
                    if k < before.open.len() - 1 {
                        assert(open_entry_ok(before, k));
                    }
                }
                assert forall|i: int| 0 <= i < self@.nodes.len() implies node_shaped(
                    self@.nodes,
                    i,
                ) by {
                    if i < before.nodes.len() && i != id {
                        assert(node_shaped(before.nodes, i));
                    }
                }
                assert forall|j: int, k: int| 0 <= j < k < self@.open.len() implies self@.open[j].0
                    != self@.open[k].0 by {
                    if j < before.open.len() - 1 {
                        assert(open_entry_ok(before, j));
                    }
                }
                assert(self@.nodes.len() == self.nodes.len());
                cut_keeps_the_index(before, v@, axis as int);
                assert(self.triangles() == list);
                assert forall|t: (u32, u32, u32)|
                    held(self@.nodes, 0, t) <==> #[trigger] list.contains(t) by {
                    cut_keeps_the_triangles(before, v@, axis as int, t);
                    assert(held(before.nodes, 0, t) <==> list.contains(t));
                }
            }
        }
    }

    /// The tree as it stands.
    pub fn finish(self) -> (t: KDTree)
        requires
            self.wf(),
        ensures
            t@ == self@.nodes,
            t.wf(),
            tree_in_range(t@, self.vertices().len()),
            indexes(t@, self.vertices()),
            forall|t: (u32, u32, u32)| held(self@.nodes, 0, t) <==> #[trigger]
                self.triangles().contains(t),
    {
        KDTree::from_nodes(self.nodes)
    }
}

/// The number of cuts that fit below a leaf with `dep` levels of depth left:
/// one for the leaf and as many again for each of its halves.
pub open spec fn budget(dep: nat) -> nat
    decreases dep,
{
    if dep == 0 {
        0
    } else {
        2 * budget((dep - 1) as nat) + 1
    }
}

/// The number of cuts that a builder may still make.
pub open spec fn work(open: Seq<(usize, u32)>) -> nat
    decreases open.len(),
{
    if open.len() == 0 {
        0
    } else {
        work(open.drop_last()) + budget(open.last().1 as nat)
    }
}

proof fn work_adds(a: Seq<(usize, u32)>, b: Seq<(usize, u32)>)
    ensures
        work(a + b) == work(a) + work(b),
    decreases b.len(),
{
    if b.len() == 0 {
        assert(a + b =~= a);
    } else {
        work_adds(a, b.drop_last());
        assert((a + b).drop_last() =~= a + b.drop_last());
    }
}

/// Building ends: every cut lowers the number of cuts that may still be
/// made, and the nodes of the tree together with twice that number never
/// grow. A tree cut `dep` levels deep is built with at most `budget(dep)`
/// cuts and has at most `2 * budget(dep) + 1` nodes.
pub proof fn cut_makes_progress(m: BuilderModel, v: Seq<Vec3>, axis: int)
    requires
        builder_wf(m),
        m.open.len() > 0,
        cut(m, v, axis).nodes.len() <= usize::MAX,
    ensures
        work(cut(m, v, axis).open) < work(m.open),
        cut(m, v, axis).nodes.len() + 2 * work(cut(m, v, axis).open) <= m.nodes.len() + 2 * work(
            m.open,
        ),
{
    let (id, dep) = m.open.last();
    let rest = m.open.drop_last();
    assert(open_entry_ok(m, m.open.len() - 1));
    let tris = m.nodes[id as int].kind->Leaf_0;
    let left = left_of(tris, v, axis);
    let right = right_of(tris, v, axis);
    let added = opened(left, right, m.nodes.len() as usize, (dep - 1) as u32);
    work_adds(rest, added);
    let r = if splittable(right, (dep - 1) as u32) {
        seq![((m.nodes.len() as usize + 1) as usize, (dep - 1) as u32)]
    } else {
        Seq::empty()
    };
    let l = if splittable(left, (dep - 1) as u32) {
        seq![(m.nodes.len() as usize, (dep - 1) as u32)]
    } else {
        Seq::empty()
    };
    work_adds(r, l);
    assert(work(r) <= budget((dep - 1) as nat)) by {
        if r.len() > 0 {
            assert(r.drop_last() =~= Seq::<(usize, u32)>::empty());
            assert(work(r.drop_last()) == 0);
        }
    }
    assert(work(l) <= budget((dep - 1) as nat)) by {
        if l.len() > 0 {
            assert(l.drop_last() =~= Seq::<(usize, u32)>::empty());
            assert(work(l.drop_last()) == 0);
        }
    }
    assert(added == r + l);
    assert(work(m.open) == work(rest) + budget(dep as nat));
    assert(budget(dep as nat) == 2 * budget((dep - 1) as nat) + 1);
}

/// A builder starts within its budget.
pub proof fn seed_is_within_budget(tris: Seq<(u32, u32, u32)>, v: Seq<Vec3>, dep: u32)
    ensures
        work(seed(tris, v, dep).open) <= budget(dep as nat),
        seed(tris, v, dep).nodes.len() + 2 * work(seed(tris, v, dep).open) <= 2 * budget(
            dep as nat,
        ) + 1,
{
    let open = seed(tris, v, dep).open;
    if open.len() > 0 {
        assert(open.drop_last() =~= Seq::<(usize, u32)>::empty());
        assert(work(open.drop_last()) == 0);
        assert(work(open) == budget(dep as nat));
    } else {
        assert(work(open) == 0);
    }
}

proof fn cut_keeps_below(m: BuilderModel, v: Seq<Vec3>, axis: int, t: (u32, u32, u32), n: usize)
    requires
        builder_wf(m),
        m.open.len() > 0,
        cut(m, v, axis).nodes.len() <= usize::MAX,
        n < m.nodes.len(),
    ensures
        held(cut(m, v, axis).nodes, n, t) == held(m.nodes, n, t),
    decreases m.nodes.len() - n,
{
    let (id, dep) = m.open.last();
    assert(open_entry_ok(m, m.open.len() - 1));
    assert(node_shaped(m.nodes, n as int));
    let tris = m.nodes[id as int].kind->Leaf_0;
    let after = cut(m, v, axis).nodes;
    if n == id {
        cut_parts_the_triangles(tris, v, axis);
        sorted_on_facts(tris, v, axis);
        let sorted = sorted_on(tris, v, axis);
        let left = left_of(tris, v, axis);
        let right = right_of(tris, v, axis);
        if left.len() == tris.len() || right.len() == tris.len() {
            assert(after[n as int].kind == KindModel::Leaf(sorted));
            if tris.contains(t) {
                let i = choose|i: int| 0 <= i < tris.len() && tris[i] == t;
                assert(sorted.contains(tris[i]));
            }
            if sorted.contains(t) {
                let i = choose|i: int| 0 <= i < sorted.len() && sorted[i] == t;
                assert(tris.contains(sorted[i]));
            }
        } else {
            let at = m.nodes.len() as usize;
            assert(after[at as int].kind == KindModel::Leaf(left));
            assert(after[at + 1].kind == KindModel::Leaf(right));
            assert(held(after, at, t) == left.contains(t));
            assert(held(after, (at + 1) as usize, t) == right.contains(t));
            assert(held(after, n, t) == (left.contains(t) || right.contains(t)));
        }
    } else {
        assert(after[n as int] == m.nodes[n as int]);
        match m.nodes[n as int].kind {
            KindModel::Leaf(_) => {},
            KindModel::Internal { left, right, axis: _, split } => {
                cut_keeps_below(m, v, axis, t, left);
                cut_keeps_below(m, v, axis, t, right);
            },
        }
    }
}

/// A cut keeps the triangles of the tree: a triangle stands in a leaf after
/// the cut exactly if it stood in a leaf before.
pub proof fn cut_keeps_the_triangles(m: BuilderModel, v: Seq<Vec3>, axis: int, t: (u32, u32, u32))
    requires
        builder_wf(m),
        m.open.len() > 0,
        cut(m, v, axis).nodes.len() <= usize::MAX,
    ensures
        held(cut(m, v, axis).nodes, 0, t) == held(m.nodes, 0, t),
{
    cut_keeps_below(m, v, axis, t, 0);
}

/// A builder starts with every triangle in its one leaf.
pub proof fn seed_holds_the_triangles(
    tris: Seq<(u32, u32, u32)>,
    v: Seq<Vec3>,
    dep: u32,
    t: (u32, u32, u32),
)
    ensures
        held(seed(tris, v, dep).nodes, 0, t) == tris.contains(t),
{
}

/// A builder starts with a tree that indexes its triangles.
pub proof fn seed_indexes(tris: Seq<(u32, u32, u32)>, v: Seq<Vec3>, dep: u32)
    ensures
        indexes(seed(tris, v, dep).nodes, v),
{
    let tree = seed(tris, v, dep).nodes;
    assert forall|n: usize| n < tree.len() implies #[trigger] node_indexes(tree, v, n) by {
        assert(boxed_by(tree, v, n, tris));
    }
}

/// A cut keeps the tree an index of its triangles: the box of every node is
/// still the bounding box of what stands below the node, and every cut, the
/// new one too, parts what stands below it between its children.
pub proof fn cut_keeps_the_index(m: BuilderModel, v: Seq<Vec3>, axis: int)
    requires
        builder_wf(m),
        m.open.len() > 0,
        cut(m, v, axis).nodes.len() <= usize::MAX,
        0 <= axis < 3,
        indexes(m.nodes, v),
    ensures
        indexes(cut(m, v, axis).nodes, v),
{
    let (id, dep) = m.open.last();
    assert(open_entry_ok(m, m.open.len() - 1));
    let tris = m.nodes[id as int].kind->Leaf_0;
    let after = cut(m, v, axis).nodes;
    let left = left_of(tris, v, axis);
    let right = right_of(tris, v, axis);
    let plane = plane_of(tris, v, axis);
    let stuck = left.len() == tris.len() || right.len() == tris.len();
    cut_parts_the_triangles(tris, v, axis);
    assert forall|n: usize| n < after.len() implies #[trigger] node_indexes(after, v, n) by {
        if n < m.nodes.len() {
            assert(node_indexes(m.nodes, v, n));
            assert(node_shaped(m.nodes, n as int));
            let list = choose|list: Seq<(u32, u32, u32)>| #[trigger] boxed_by(m.nodes, v, n, list);
            assert(after[n as int].aabb == m.nodes[n as int].aabb);
            assert forall|t: (u32, u32, u32)| held(after, n, t) <==> #[trigger] list.contains(
                t,
            ) by {
                cut_keeps_below(m, v, axis, t, n);
            }
            assert(boxed_by(after, v, n, list));
            if n == id {
                if !stuck {
                    let at = m.nodes.len() as usize;
                    assert(after[at as int].kind == KindModel::Leaf(left));
                    assert(after[at + 1].kind == KindModel::Leaf(right));
                    assert forall|t: (u32, u32, u32)| #[trigger]
                        held(after, at, t) <==> held(after, n, t) && lies_left(
                            v,
                            t,
                            axis,
                            plane,
                        ) by {
                        cut_keeps_below(m, v, axis, t, n);
                        assert(held(after, at, t) == left.contains(t));
                    }
                    assert forall|t: (u32, u32, u32)| #[trigger]
                        held(after, (at + 1) as usize, t) <==> held(after, n, t) && lies_right(
                            v,
                            t,
                            axis,
                            plane,
                        ) by {
                        cut_keeps_below(m, v, axis, t, n);
                        assert(held(after, (at + 1) as usize, t) == right.contains(t));
                    }
                }
            } else {
                assert(after[n as int] == m.nodes[n as int]);
                match m.nodes[n as int].kind {
                    KindModel::Leaf(_) => {},
                    KindModel::Internal { left: l, right: r, axis: a, split } => {
                        assert forall|t: (u32, u32, u32)| #[trigger]
                            held(after, l, t) <==> held(after, n, t) && lies_left(
                                v,
                                t,
                                a as int,
                                split,
                            ) by {
                            cut_keeps_below(m, v, axis, t, l);
                            cut_keeps_below(m, v, axis, t, n);
                        }
                        assert forall|t: (u32, u32, u32)| #[trigger]
                            held(after, r, t) <==> held(after, n, t) && lies_right(
                                v,
                                t,
                                a as int,
                                split,
                            ) by {
                            cut_keeps_below(m, v, axis, t, r);
                            cut_keeps_below(m, v, axis, t, n);
                        }
                    },
                }
            }
        } else {
            let at = m.nodes.len() as usize;
            assert(!stuck);
            assert(after[at as int] == leaf_of(left, v));
            assert(after[at + 1] == leaf_of(right, v));
            if n == at {
                assert(boxed_by(after, v, n, left));
            } else {
                assert(boxed_by(after, v, n, right));
            }
        }
    }
}

/// Over vertices that are numbers, the box of every node of an index holds
/// every corner of every triangle that stands below the node.
pub proof fn index_boxes_hold(tree: Seq<NodeModel>, v: Seq<Vec3>, n: usize, t: (u32, u32, u32))
    requires
        indexes(tree, v),
        vertices_numeric(v),
        n < tree.len(),
        held(tree, n, t),
        t.0 < v.len(),
        t.1 < v.len(),
        t.2 < v.len(),
    ensures
        corners_inside(tree[n as int].aabb, v, t),
{
    assert(node_indexes(tree, v, n));
    let list = choose|list: Seq<(u32, u32, u32)>| #[trigger] boxed_by(tree, v, n, list);
    assert(list.contains(t));
    let i = choose|i: int| 0 <= i < list.len() && list[i] == t;
    bounds_hold_a_triangle(list, v, i);
}

/// Whether every coordinate of every corner of every triangle below node `n`
/// is a number strictly between the far distances.
pub open spec fn reach_below(tree: Seq<NodeModel>, v: Seq<Vec3>, n: usize) -> bool {
    forall|t: (u32, u32, u32), c: int, a: int|
        #![trigger held(tree, n, t), corner(v, t, c).spec_get(a)]
        held(tree, n, t) && 0 <= c < 3 && 0 <= a < 3 ==> Scalar::from_bits(NEG_FAR_BITS).lt(
            corner(v, t, c).spec_get(a),
        ) && corner(v, t, c).spec_get(a).lt(Scalar::from_bits(FAR_BITS))
}

/// The box of every node of an index is tight: where no triangle stands
/// below the node it is the box that holds nothing, and else each of its
/// extents is the coordinate of a corner of a triangle that stands below
/// the node.
pub proof fn index_boxes_are_tight(tree: Seq<NodeModel>, v: Seq<Vec3>, n: usize, axis: int)
    requires
        indexes(tree, v),
        n < tree.len(),
        0 <= axis < 3,
        reach_below(tree, v, n),
    ensures
        (forall|t: (u32, u32, u32)| !held(tree, n, t)) ==> tree[n as int].aabb == AABB::empty(),
        (exists|t: (u32, u32, u32)| held(tree, n, t)) ==> {
            &&& exists|t: (u32, u32, u32), c: int|
                #![trigger held(tree, n, t), corner(v, t, c)]
                held(tree, n, t) && 0 <= c < 3 && corner(v, t, c).spec_get(axis)
                    == tree[n as int].aabb.min.spec_get(axis)
            &&& exists|t: (u32, u32, u32), c: int|
                #![trigger held(tree, n, t), corner(v, t, c)]
                held(tree, n, t) && 0 <= c < 3 && corner(v, t, c).spec_get(axis)
                    == tree[n as int].aabb.max.spec_get(axis)
        },
{
    assert(node_indexes(tree, v, n));
    let list = choose|list: Seq<(u32, u32, u32)>| #[trigger] boxed_by(tree, v, n, list);
    assert forall|i: int, c: int, a: int|
        0 <= i < list.len() && 0 <= c < 3 && 0 <= a < 3 implies Scalar::from_bits(
        NEG_FAR_BITS,
    ).lt(#[trigger] corner(v, list[i], c).spec_get(a)) && corner(v, list[i], c).spec_get(a).lt(
        Scalar::from_bits(FAR_BITS),
    ) by {
        assert(list.contains(list[i]));
        assert(held(tree, n, list[i]));
    }
    bounds_are_tight(list, v, axis);
    if list.len() == 0 {
        assert forall|t: (u32, u32, u32)| !held(tree, n, t) by {
            assert(!list.contains(t));
        }
    } else {
        assert(list.contains(list[0]));
        let lo = tree[n as int].aabb.min.spec_get(axis);
        let hi = tree[n as int].aabb.max.spec_get(axis);
        let (i, c) = choose|i: int, c: int|
            0 <= i < list.len() && 0 <= c < 3 && (#[trigger] corner(v, list[i], c)).spec_get(axis)
                == lo;
        assert(list.contains(list[i]));
        assert(held(tree, n, list[i]) && corner(v, list[i], c).spec_get(axis) == lo);
        let (j, d) = choose|j: int, d: int|
            0 <= j < list.len() && 0 <= d < 3 && (#[trigger] corner(v, list[j], d)).spec_get(axis)
                == hi;
        assert(list.contains(list[j]));
        assert(held(tree, n, list[j]) && corner(v, list[j], d).spec_get(axis) == hi);
    }
}

} // verus!
