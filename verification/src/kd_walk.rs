//! Finding the nearest triangle along a ray by walking the tree.
//!
//! The walk never computes: at each node it is handed a [`NodeProbe`], the
//! numbers that the ray yields at that node, and decides from them where to
//! go next. [`KdWalk`] is the walk with an explicit stack, one node at a
//! time, for a caller that computes probes only where the walk asks.
//! [`KDTree::short_stack`] runs that walk over a table of probes, and
//! [`KDTree::hit_rec`] is the same search written as a recursion.
//! [`traversals_agree`] proves that the two return the same hit.

use vstd::prelude::*;
use crate::geo::in_front;
use crate::geo::TriSample;
use crate::kd_nearest::scan_keeps_the_nearest;
use crate::kd_nearest::search_returns_a_hit;
use crate::kd_nearest::sound;
use crate::kd_tree::tree_shaped;
use crate::kd_tree::KDNodeKind;
use crate::kd_tree::KDTree;
use crate::kd_tree::KindModel;
use crate::kd_tree::NodeModel;
use crate::mesh::AABB;
use crate::scalar::Scalar;
use crate::scalar::FAR_BITS;
use crate::vec::Vec3;

verus! {

/// What a ray yields at one node of the tree.
#[derive(Debug)]
pub struct NodeProbe {
    /// The ray parameters at which the ray crosses the three planes of the
    /// lower corner of the node's box.
    pub t0s: Vec3,
    /// The same for the upper corner.
    pub t1s: Vec3,
    /// At a cut: the ray parameter at which the ray crosses the cutting
    /// plane. Not read at a leaf.
    pub t_split: Scalar,
    /// At a cut: the component of the ray's direction on the cut's axis. Not
    /// read at a leaf.
    pub dir: Scalar,
    /// At a leaf: one sample for each triangle, in the leaf's order. Not read
    /// at a cut. A triangle without a sample is not tested.
    pub samples: Vec<TriSample>,
}

/// The mathematical content of a [`NodeProbe`].
pub struct ProbeModel {
    pub t0s: Vec3,
    pub t1s: Vec3,
    pub t_split: Scalar,
    pub dir: Scalar,
    pub samples: Seq<TriSample>,
}

impl View for NodeProbe {
    type V = ProbeModel;

    open spec fn view(&self) -> ProbeModel {
        ProbeModel {
            t0s: self.t0s,
            t1s: self.t1s,
            t_split: self.t_split,
            dir: self.dir,
            samples: self.samples@,
        }
    }
}

/// The mathematical content of a table of probes.
pub open spec fn probe_models(probes: Seq<NodeProbe>) -> Seq<ProbeModel> {
    Seq::new(probes.len(), |i: int| probes[i]@)
}

/// A hit of a triangle: the distance along the ray, the two barycentric
/// weights of the crossing, and the triangle.
#[derive(Clone, Copy, Debug, PartialEq, Eq)]
pub struct KdHit {
    pub t: Scalar,
    pub u: Scalar,
    pub v: Scalar,
    pub tri: (u32, u32, u32),
}

/// The distance that a new hit has to beat: that of the best hit so far, or
/// the far distance when there is none.
pub open spec fn limit(best: Option<KdHit>) -> Scalar {
    match best {
        Some(h) => h.t,
        None => Scalar::from_bits(FAR_BITS),
    }
}

/// The best hit after one more triangle was tested: the new one if it is a
/// hit and strictly nearer, else the old one.
pub open spec fn improved(best: Option<KdHit>, tri: (u32, u32, u32), s: TriSample) -> Option<
    KdHit,
> {
    if s.accepts() && s.t.lt(limit(best)) {
        Some(KdHit { t: s.t, u: s.u, v: s.v, tri })
    } else {
        best
    }
}

/// The best hit after the first `k` triangles of a leaf were tested in order.
pub open spec fn scanned(
    tris: Seq<(u32, u32, u32)>,
    samples: Seq<TriSample>,
    best: Option<KdHit>,
    k: nat,
) -> Option<KdHit>
    decreases k,
{
    if k == 0 {
        best
    } else {
        improved(scanned(tris, samples, best, (k - 1) as nat), tris[k - 1], samples[k - 1])
    }
}

/// The number of triangles of a leaf that have a sample.
pub open spec fn sampled(tris: Seq<(u32, u32, u32)>, samples: Seq<TriSample>) -> nat {
    if tris.len() <= samples.len() {
        tris.len()
    } else {
        samples.len()
    }
}

/// The best hit after a whole leaf was tested.
pub open spec fn leaf_best(
    tris: Seq<(u32, u32, u32)>,
    samples: Seq<TriSample>,
    best: Option<KdHit>,
) -> Option<KdHit> {
    scanned(tris, samples, best, sampled(tris, samples))
}

/// Whether the search may stop after a leaf: there is a hit, and it lies
/// before the end of the stretch of the ray that the leaf covers, so that
/// nothing behind the leaf can be nearer.
pub open spec fn settles(best: Option<KdHit>, t_max: Scalar) -> bool {
    best is Some && best->Some_0.t.lt(t_max)
}

/// The mathematical content of a [`KdWalk`]: the node to visit next with the
/// stretch of the ray that lies in it, the nodes put off for later with
/// theirs, and the best hit so far. The walk is over when there is no node
/// to visit.
pub struct WalkModel {
    pub cur: Option<(usize, Scalar, Scalar)>,
    pub stack: Seq<(usize, Scalar, Scalar)>,
    pub best: Option<KdHit>,
}

/// The walk before its first step: at the root, with the stretch of the ray
/// inside the root's box, or over at once where the ray misses that box.
pub open spec fn started(t0s: Vec3, t1s: Vec3) -> WalkModel {
    match AABB::hit(t0s, t1s) {
        Some((t_min, t_max)) => WalkModel {
            cur: Some((0usize, t_min, t_max)),
            stack: Seq::empty(),
            best: None,
        },
        None => WalkModel { cur: None, stack: Seq::empty(), best: None },
    }
}

/// The walk turned to the node that was put off last, or over if none was.
pub open spec fn resumed(m: WalkModel, best: Option<KdHit>) -> WalkModel {
    if m.stack.len() == 0 {
        WalkModel { cur: None, stack: m.stack, best }
    } else {
        WalkModel { cur: Some(m.stack.last()), stack: m.stack.drop_last(), best }
    }
}

/// The child on the side from which the ray comes, then the other one: the
/// ray runs from `left` to `right` unless its direction on the cut's axis
/// has a negative sign. A direction of zero has a sign as well, which keeps a
/// ray that runs along the cutting plane on the side of its origin.
pub open spec fn near_far(left: usize, right: usize, dir: Scalar) -> (usize, usize) {
    if dir.sign() {
        (right, left)
    } else {
        (left, right)
    }
}

/// The walk after one step, given the probe of the node it was at.
///
/// A node whose box the ray misses is left at once. At a cut, the ray's
/// crossing of the cutting plane is held against the stretch of the ray in
/// the node: at or before its start, only the far child is visited; at or
/// after its end, only the near child; in between, the near child is visited
/// up to the crossing and the far child is put off, from the crossing on. At
/// a leaf every triangle is tested, and the walk is over if the best hit
/// settles the search, else it resumes.
pub open spec fn stepped(tree: Seq<NodeModel>, m: WalkModel, p: ProbeModel) -> WalkModel {
    match m.cur {
        None => m,
        Some((n, t_min, t_max)) => {
            if !AABB::intersect_ray(p.t0s, p.t1s) {
                resumed(m, m.best)
            } else {
                match tree[n as int].kind {
                    KindModel::Leaf(tris) => {
                        let best = leaf_best(tris, p.samples, m.best);
                        if settles(best, t_max) {
                            WalkModel { cur: None, stack: m.stack, best }
                        } else {
                            resumed(m, best)
                        }
                    },
                    KindModel::Internal { left, right, axis, split } => {
                        let (near, far) = near_far(left, right, p.dir);
                        if p.t_split.le(t_min) {
                            WalkModel { cur: Some((far, t_min, t_max)), stack: m.stack, best: m.best }
                        } else if p.t_split.ge(t_max) {
                            WalkModel {
                                cur: Some((near, t_min, t_max)),
                                stack: m.stack,
                                best: m.best,
                            }
                        } else {
                            WalkModel {
                                cur: Some((near, t_min, p.t_split)),
                                stack: m.stack.push((far, p.t_split, t_max)),
                                best: m.best,
                            }
                        }
                    },
                }
            }
        },
    }
}

/// Whether every node that the walk names is a node of the tree.
pub open spec fn walk_fits(m: WalkModel, tree: Seq<NodeModel>) -> bool {
    &&& m.cur matches Some(c) ==> c.0 < tree.len()
    &&& forall|k: int| 0 <= k < m.stack.len() ==> (#[trigger] m.stack[k]).0 < tree.len()
}

/// Tests the triangles of a leaf in order against the best hit so far.
pub fn scan_leaf(
    tris: &Vec<(u32, u32, u32)>,
    samples: &Vec<TriSample>,
    best: Option<KdHit>,
) -> (r: Option<KdHit>)
    ensures
        r == leaf_best(tris@, samples@, best),
        sound(best) ==> sound(r),
{
    proof {
        if sound(best) {
            scan_keeps_the_nearest(tris@, samples@, best, sampled(tris@, samples@));
        }
    }
    let n = if tris.len() <= samples.len() {
        tris.len()
    } else {
        samples.len()
    };
    let mut acc = best;
    let mut i: usize = 0;
    while i < n
        invariant
            i <= n,
            n == sampled(tris@, samples@),
            acc == scanned(tris@, samples@, best, i as nat),
        decreases n - i,
    {
        let s = samples[i];
        let bound = match acc {
            Some(h) => h.t,
            None => Scalar::from_bits(FAR_BITS),
        };
        if s.accepts() && s.t.lt(bound) {
            acc = Some(KdHit { t: s.t, u: s.u, v: s.v, tri: tris[i] });
        }
        i += 1;
    }
    acc
}

/// The search for the nearest triangle along a ray, one node at a time.
///
/// [`KdWalk::current`] names the node whose probe the walk needs next;
/// [`KdWalk::step`] takes that probe. When no node is named the walk is over
/// and [`KdWalk::best`] is the nearest hit.
#[derive(Debug)]
pub struct KdWalk<'a> {
    tree: &'a KDTree,
    cur: Option<(usize, Scalar, Scalar)>,
    stack: Vec<(usize, Scalar, Scalar)>,
    best: Option<KdHit>,
}

impl<'a> View for KdWalk<'a> {
    type V = WalkModel;

    closed spec fn view(&self) -> WalkModel {
        WalkModel { cur: self.cur, stack: self.stack@, best: self.best }
    }
}

impl<'a> KdWalk<'a> {
    /// The tree that is walked.
    pub closed spec fn tree(&self) -> Seq<NodeModel> {
        self.tree@
    }

    /// The invariant of the type: the tree is a tree, the walk names nodes
    /// of it, and the best hit so far is a hit.
    pub open spec fn wf(&self) -> bool {
        tree_shaped(self.tree()) && walk_fits(self@, self.tree()) && sound(self@.best)
    }

    /// Starts a walk of `tree`. `t0s` and `t1s` are the crossings of the ray
    /// with the planes of the root's box, as [`AABB::hit`] takes them.
    pub fn start(tree: &'a KDTree, t0s: Vec3, t1s: Vec3) -> (w: KdWalk<'a>)
        requires
            tree.wf(),
        ensures
            w@ == started(t0s, t1s),
            w.tree() == tree@,
            w.wf(),
    {
        let cur = match AABB::hit(t0s, t1s) {
            Some((t_min, t_max)) => Some((0usize, t_min, t_max)),
            None => None,
        };
        KdWalk { tree, cur, stack: Vec::new(), best: None }
    }

    /// The position of the node whose probe is needed next, or `None` when
    /// the walk is over.
    pub fn current(&self) -> (n: Option<usize>)
        ensures
            n == match self@.cur {
                Some(c) => Some(c.0),
                None => None,
            },
    {
        match self.cur {
            Some((n, _, _)) => Some(n),
            None => None,
        }
    }

    /// The nearest hit found so far.
    pub fn best(&self) -> (h: Option<KdHit>)
        requires
            self.wf(),
        ensures
            h == self@.best,
            h matches Some(x) ==> in_front(x.t),
    {
        self.best
    }

    /// Takes the probe of the current node and moves on. Does nothing when
    /// the walk is over.
    pub fn step(&mut self, probe: &NodeProbe)
        requires
            old(self).wf(),
        ensures
            final(self)@ == stepped(old(self).tree(), old(self)@, probe@),
            final(self).tree() == old(self).tree(),
            final(self).wf(),
    {
        let (n, t_min, t_max) = match self.cur {
            Some(c) => c,
            None => {
                return ;
            },
        };
        if !AABB::intersect_ray(probe.t0s, probe.t1s) {
            self.resume();
            return ;
        }
        match &self.tree.node(n).kind {
            KDNodeKind::Leaf(tris) => {
                let best = scan_leaf(tris, &probe.samples, self.best);
                self.best = best;
                let settled = match best {
                    Some(h) => h.t.lt(t_max),
                    None => false,
                };
                if settled {
                    self.cur = None;
                } else {
                    self.resume();
                }
            },
            KDNodeKind::Internal { left, right, axis, split } => {
                let (near, far) = if probe.dir.is_sign_negative() {
                    (*right, *left)
                } else {
                    (*left, *right)
                };
                proof {
                    assert(crate::kd_tree::node_shaped(self.tree(), n as int));
                }
                if probe.t_split.le(t_min) {
                    self.cur = Some((far, t_min, t_max));
                } else if probe.t_split.ge(t_max) {
                    self.cur = Some((near, t_min, t_max));
                } else {
                    self.stack.push((far, probe.t_split, t_max));
                    self.cur = Some((near, t_min, probe.t_split));
                }
            },
        }
    }

    fn resume(&mut self)
        requires
            old(self).wf(),
        ensures
            final(self)@ == resumed(old(self)@, old(self)@.best),
            final(self).tree() == old(self).tree(),
            final(self).wf(),
    {
        self.cur = self.stack.pop();
    }
}

/// The search written as a recursion: the best hit after the subtree at `n`
/// was searched along the stretch from `t_min` to `t_max`, and whether that
/// hit settles the search.
///
/// The decisions are those of [`stepped`]: a missed box ends the visit, a
/// leaf is tested whole, and a cut sends the search to its far child, to its
/// near child, or to the near child and then, unless the search is settled,
/// to the far one.
pub open spec fn visited(
    tree: Seq<NodeModel>,
    probes: Seq<ProbeModel>,
    n: usize,
    t_min: Scalar,
    t_max: Scalar,
    best: Option<KdHit>,
) -> (Option<KdHit>, bool)
    decreases tree.len() - n,
{
    if n >= tree.len() || n >= probes.len() {
        (best, false)
    } else {
        let p = probes[n as int];
        if !AABB::intersect_ray(p.t0s, p.t1s) {
            (best, false)
        } else {
            match tree[n as int].kind {
                KindModel::Leaf(tris) => {
                    let found = leaf_best(tris, p.samples, best);
                    (found, settles(found, t_max))
                },
                KindModel::Internal { left, right, axis, split } => {
                    if !(n < left < tree.len() && n < right < tree.len()) {
                        (best, false)
                    } else {
                        let (near, far) = near_far(left, right, p.dir);
                        if p.t_split.le(t_min) {
                            visited(tree, probes, far, t_min, t_max, best)
                        } else if p.t_split.ge(t_max) {
                            visited(tree, probes, near, t_min, t_max, best)
                        } else {
                            let first = visited(tree, probes, near, t_min, p.t_split, best);
                            if first.1 {
                                first
                            } else {
                                visited(tree, probes, far, p.t_split, t_max, first.0)
                            }
                        }
                    }
                },
            }
        }
    }
}

/// The nearest hit that the recursive search finds in the whole tree.
pub open spec fn nearest(tree: Seq<NodeModel>, probes: Seq<ProbeModel>) -> Option<KdHit> {
    match AABB::hit(probes[0].t0s, probes[0].t1s) {
        Some((t_min, t_max)) => visited(tree, probes, 0, t_min, t_max, None).0,
        None => None,
    }
}

/// The number of nodes in the subtree at `n`: a bound on the steps that a
/// walk spends there.
pub open spec fn weight(tree: Seq<NodeModel>, n: usize) -> nat
    decreases tree.len() - n,
{
    if n >= tree.len() {
        0
    } else {
        match tree[n as int].kind {
            KindModel::Leaf(_) => 1,
            KindModel::Internal { left, right, axis, split } => {
                if n < left < tree.len() && n < right < tree.len() {
                    1 + weight(tree, left) + weight(tree, right)
                } else {
                    1
                }
            },
        }
    }
}

/// The weight of all the nodes that a walk has put off.
pub open spec fn stack_weight(tree: Seq<NodeModel>, stack: Seq<(usize, Scalar, Scalar)>) -> nat
    decreases stack.len(),
{
    if stack.len() == 0 {
        0
    } else {
        stack_weight(tree, stack.drop_last()) + weight(tree, stack.last().0)
    }
}

/// A bound on the steps that a walk has left.
pub open spec fn effort(tree: Seq<NodeModel>, m: WalkModel) -> nat {
    stack_weight(tree, m.stack) + match m.cur {
        Some(c) => weight(tree, c.0),
        None => 0,
    }
}

/// The walk after at most `fuel` steps over a table with one probe for each
/// node.
pub open spec fn ran(tree: Seq<NodeModel>, probes: Seq<ProbeModel>, m: WalkModel, fuel: nat) -> WalkModel
    decreases fuel,
{
    if fuel == 0 {
        m
    } else {
        match m.cur {
            None => m,
            Some(c) => ran(tree, probes, stepped(tree, m, probes[c.0 as int]), (fuel - 1) as nat),
        }
    }
}

/// The nearest hit that the walk finds in the whole tree.
pub open spec fn walked(tree: Seq<NodeModel>, probes: Seq<ProbeModel>) -> Option<KdHit> {
    let start = started(probes[0].t0s, probes[0].t1s);
    ran(tree, probes, start, effort(tree, start)).best
}

proof fn stack_weight_push(
    tree: Seq<NodeModel>,
    stack: Seq<(usize, Scalar, Scalar)>,
    e: (usize, Scalar, Scalar),
)
    ensures
        stack_weight(tree, stack.push(e)) == stack_weight(tree, stack) + weight(tree, e.0),
{
    assert(stack.push(e).drop_last() =~= stack);
}

/// Every step of a walk that is not over brings it closer to its end: the
/// bound on the steps left falls, and the walk stays within the tree. So a
/// walk of a tree takes no more steps than the tree has nodes.
pub proof fn step_makes_progress(tree: Seq<NodeModel>, m: WalkModel, p: ProbeModel)
    requires
        tree_shaped(tree),
        walk_fits(m, tree),
        m.cur is Some,
    ensures
        effort(tree, stepped(tree, m, p)) < effort(tree, m),
        walk_fits(stepped(tree, m, p), tree),
{
    let n = m.cur->Some_0.0;
    assert(crate::kd_tree::node_shaped(tree, n as int));
    let after = stepped(tree, m, p);
    if after.stack.len() == m.stack.len() + 1 {
        let e = after.stack.last();
        assert(after.stack =~= m.stack.push(e));
        stack_weight_push(tree, m.stack, e);
    }
}

/// Fuel beyond the bound changes nothing: a walk with enough fuel ends with
/// the same hit as the walk with exactly the bound.
proof fn fuel_suffices(tree: Seq<NodeModel>, probes: Seq<ProbeModel>, m: WalkModel, fuel: nat)
    requires
        tree_shaped(tree),
        walk_fits(m, tree),
        fuel >= effort(tree, m),
    ensures
        ran(tree, probes, m, fuel).best == ran(tree, probes, m, effort(tree, m)).best,
        m.cur matches Some(c) ==> ran(tree, probes, m, fuel).best == ran(
            tree,
            probes,
            stepped(tree, m, probes[c.0 as int]),
            effort(tree, stepped(tree, m, probes[c.0 as int])),
        ).best,
        m.cur is None ==> ran(tree, probes, m, fuel).best == m.best,
    decreases fuel,
{
    match m.cur {
        None => {},
        Some(c) => {
            let next = stepped(tree, m, probes[c.0 as int]);
            step_makes_progress(tree, m, probes[c.0 as int]);
            fuel_suffices(tree, probes, next, (fuel - 1) as nat);
            fuel_suffices(tree, probes, next, (effort(tree, m) - 1) as nat);
        },
    }
}

/// The walk of a subtree ends as the recursion over it does: settled with
/// the recursion's hit, or resumed from the stack with that hit as the best
/// so far.
proof fn walk_follows_recursion(
    tree: Seq<NodeModel>,
    probes: Seq<ProbeModel>,
    n: usize,
    t_min: Scalar,
    t_max: Scalar,
    stack: Seq<(usize, Scalar, Scalar)>,
    best: Option<KdHit>,
)
    requires
        tree_shaped(tree),
        probes.len() == tree.len(),
        n < tree.len(),
        forall|k: int| 0 <= k < stack.len() ==> (#[trigger] stack[k]).0 < tree.len(),
    ensures
        ({
            let m = WalkModel { cur: Some((n, t_min, t_max)), stack, best };
            let r = visited(tree, probes, n, t_min, t_max, best);
            let rest = resumed(WalkModel { cur: None, stack, best: r.0 }, r.0);
            ran(tree, probes, m, effort(tree, m)).best == if r.1 {
                r.0
            } else {
                ran(tree, probes, rest, effort(tree, rest)).best
            }
        }),
    decreases tree.len() - n,
{
    let m = WalkModel { cur: Some((n, t_min, t_max)), stack, best };
    let p = probes[n as int];
    let next = stepped(tree, m, p);
    assert(crate::kd_tree::node_shaped(tree, n as int));
    step_makes_progress(tree, m, p);
    fuel_suffices(tree, probes, m, effort(tree, m));
    fuel_suffices(tree, probes, next, effort(tree, next));
    if AABB::intersect_ray(p.t0s, p.t1s) {
        match tree[n as int].kind {
            KindModel::Leaf(tris) => {},
            KindModel::Internal { left, right, axis, split } => {
                let (near, far) = near_far(left, right, p.dir);
                if p.t_split.le(t_min) {
                    walk_follows_recursion(tree, probes, far, t_min, t_max, stack, best);
                } else if p.t_split.ge(t_max) {
                    walk_follows_recursion(tree, probes, near, t_min, t_max, stack, best);
                } else {
                    let later = stack.push((far, p.t_split, t_max));
                    walk_follows_recursion(tree, probes, near, t_min, p.t_split, later, best);
                    let first = visited(tree, probes, near, t_min, p.t_split, best);
                    if !first.1 {
                        assert(later.drop_last() =~= stack);
                        walk_follows_recursion(tree, probes, far, p.t_split, t_max, stack, first.0);
                    }
                }
            },
        }
    }
}

/// The walk with a stack and the recursion find the same hit: for every tree
/// and every table of probes, whatever numbers the probes hold.
pub proof fn traversals_agree(tree: Seq<NodeModel>, probes: Seq<ProbeModel>)
    requires
        tree_shaped(tree),
        probes.len() == tree.len(),
    ensures
        walked(tree, probes) == nearest(tree, probes),
{
    let start = started(probes[0].t0s, probes[0].t1s);
    match AABB::hit(probes[0].t0s, probes[0].t1s) {
        Some((t_min, t_max)) => {
            let stack = Seq::<(usize, Scalar, Scalar)>::empty();
            walk_follows_recursion(tree, probes, 0, t_min, t_max, stack, None);
            let r = visited(tree, probes, 0, t_min, t_max, None);
            let rest = resumed(WalkModel { cur: None, stack, best: r.0 }, r.0);
            fuel_suffices(tree, probes, rest, effort(tree, rest));
        },
        None => {
            fuel_suffices(tree, probes, start, effort(tree, start));
        },
    }
}

impl KDTree {
    fn visit(
        &self,
        probes: &Vec<NodeProbe>,
        n: usize,
        t_min: Scalar,
        t_max: Scalar,
        best: Option<KdHit>,
    ) -> (r: (Option<KdHit>, bool))
        requires
            self.wf(),
            probes.len() == self@.len(),
            n < self@.len(),
        ensures
            r == visited(self@, probe_models(probes@), n, t_min, t_max, best),
        decreases self@.len() - n,
    {
        let p = &probes[n];
        proof {
            assert(crate::kd_tree::node_shaped(self@, n as int));
        }
        if !AABB::intersect_ray(p.t0s, p.t1s) {
            return (best, false);
        }
        match &self.node(n).kind {
            KDNodeKind::Leaf(tris) => {
                let found = scan_leaf(tris, &p.samples, best);
                let settled = match found {
                    Some(h) => h.t.lt(t_max),
                    None => false,
                };
                (found, settled)
            },
            KDNodeKind::Internal { left, right, axis, split } => {
                let (near, far) = if p.dir.is_sign_negative() {
                    (*right, *left)
                } else {
                    (*left, *right)
                };
                if p.t_split.le(t_min) {
                    self.visit(probes, far, t_min, t_max, best)
                } else if p.t_split.ge(t_max) {
                    self.visit(probes, near, t_min, t_max, best)
                } else {
                    let first = self.visit(probes, near, t_min, p.t_split, best);
                    if first.1 {
                        first
                    } else {
                        self.visit(probes, far, p.t_split, t_max, first.0)
                    }
                }
            },
        }
    }

    /// Searches the tree by recursion, over a table that holds the probe of
    /// every node.
    pub fn hit_rec(&self, probes: &Vec<NodeProbe>) -> (r: Option<KdHit>)
        requires
            self.wf(),
            probes.len() == self@.len(),
        ensures
            r == nearest(self@, probe_models(probes@)),
            r matches Some(h) ==> in_front(h.t),
    {
        proof {
            search_returns_a_hit(self@, probe_models(probes@));
        }
        match AABB::hit(probes[0].t0s, probes[0].t1s) {
            Some((t_min, t_max)) => self.visit(probes, 0, t_min, t_max, None).0,
            None => None,
        }
    }

    /// Searches the tree with an explicit stack, over a table that holds the
    /// probe of every node.
    pub fn short_stack(&self, probes: &Vec<NodeProbe>) -> (r: Option<KdHit>)
        requires
            self.wf(),
            probes.len() == self@.len(),
        ensures
            r == walked(self@, probe_models(probes@)),
            r == nearest(self@, probe_models(probes@)),
            r matches Some(h) ==> in_front(h.t),
    {
        let ghost table = probe_models(probes@);
        let mut walk = KdWalk::start(self, probes[0].t0s, probes[0].t1s);
        let ghost start = walk@;
        let ghost mut fuel = effort(self@, start);
        let mut cur = walk.current();
        while cur.is_some()
            invariant
                self.wf(),
                walk.wf(),
                walk.tree() == self@,
                probes.len() == self@.len(),
                table == probe_models(probes@),
                cur == match walk@.cur {
                    Some(c) => Some(c.0),
                    None => None,
                },
                fuel >= effort(self@, walk@),
                ran(self@, table, walk@, fuel).best == walked(self@, table),
            decreases fuel,
        {
            let n = cur.unwrap();
            proof {
                step_makes_progress(self@, walk@, table[n as int]);
                fuel = (fuel - 1) as nat;
            }
            walk.step(&probes[n]);
            cur = walk.current();
        }
        proof {
            traversals_agree(self@, table);
        }
        walk.best()
    }
}

} // verus!
