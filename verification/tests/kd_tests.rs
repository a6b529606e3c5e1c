use ray_tracer::geo::TriSample;
use ray_tracer::kd_tree::{bounding_box, highest, lowest, partition};
use ray_tracer::kd_build::{KdBuilder, LEAF_SIZE, MESH_DEPTH};
use ray_tracer::kd_tree::{KDNodeKind, KDTree};
use ray_tracer::kd_walk::{scan_leaf, KdHit, KdWalk, NodeProbe};
use ray_tracer::mesh::{Mesh, AABB};
use ray_tracer::scalar::Scalar;
use ray_tracer::vec::{Vec2, Vec3};

type V = [f32; 3];
type Tri = (u32, u32, u32);

fn s(x: f32) -> Scalar {
    Scalar::from_bits(x.to_bits())
}

fn f(x: Scalar) -> f32 {
    f32::from_bits(x.to_bits())
}

fn v3(a: V) -> Vec3 {
    Vec3(s(a[0]), s(a[1]), s(a[2]))
}

fn arr(a: Vec3) -> V {
    [f(a.0), f(a.1), f(a.2)]
}

fn sub(a: V, b: V) -> V {
    [a[0] - b[0], a[1] - b[1], a[2] - b[2]]
}

fn dot(a: V, b: V) -> f32 {
    a[0] * b[0] + a[1] * b[1] + a[2] * b[2]
}

fn cross(a: V, b: V) -> V {
    [a[1] * b[2] - a[2] * b[1], a[2] * b[0] - a[0] * b[2], a[0] * b[1] - a[1] * b[0]]
}

fn unit(a: V) -> V {
    let k = 1.0 / dot(a, a).sqrt();
    [a[0] * k, a[1] * k, a[2] * k]
}

struct Lcg(u64);

impl Lcg {
    fn next(&mut self) -> f32 {
        self.0 = self.0.wrapping_mul(6364136223846793005).wrapping_add(1442695040888963407);
        ((self.0 >> 40) as f32) / ((1u64 << 24) as f32)
    }
}

/// A bumpy sheet of `n` by `n` vertices over the unit square.
fn sheet(n: u32, seed: u64) -> (Vec<Vec3>, Vec<Tri>) {
    let mut rng = Lcg(seed);
    let mut v = Vec::new();
    for i in 0..n {
        for j in 0..n {
            let x = (i as f32 + 0.4 * rng.next()) / n as f32;
            let y = (j as f32 + 0.4 * rng.next()) / n as f32;
            v.push(v3([x, y, 2.0 + 0.5 * rng.next()]));
        }
    }
    let mut index = Vec::new();
    for i in 1..n {
        for j in 1..n {
            let at = i * n + j;
            index.push((at, at - 1 - n, at - 1));
            index.push((at, at - n, at - 1 - n));
        }
    }
    (v, index)
}

fn corner_min(v: &Vec<Vec3>, t: Tri, axis: usize) -> f32 {
    f(lowest(v, t, axis))
}

/// The axis on which the lowest corners of the triangles vary most.
fn widest_axis(tris: &Vec<Tri>, v: &Vec<Vec3>) -> u32 {
    let (mut axis, mut max_var) = (0, -1e9f64);
    for d in 0..3 {
        let mut ave = 0.0f64;
        for &t in tris {
            ave += corner_min(v, t, d) as f64;
        }
        ave /= tris.len() as f64;
        let mut var = 0.0f64;
        for &t in tris {
            var += (corner_min(v, t, d) as f64 - ave).powi(2);
        }
        if var > max_var {
            axis = d;
            max_var = var;
        }
    }
    axis as u32
}

fn build(index: Vec<Tri>, v: &Vec<Vec3>, dep: u32) -> KDTree {
    let mut b = KdBuilder::new(index, v, dep);
    loop {
        let axis = match b.pending() {
            Some(tris) => widest_axis(tris, v),
            None => break,
        };
        b.split(axis);
    }
    b.finish()
}

fn sample(v: &Vec<Vec3>, t: Tri, o: V, d: V) -> TriSample {
    let (p1, p2, p3) = (arr(v[t.0 as usize]), arr(v[t.1 as usize]), arr(v[t.2 as usize]));
    let (e1, e2) = (sub(p2, p1), sub(p3, p1));
    let p = cross(d, e2);
    let det = dot(e1, p);
    let inv = 1.0 / det;
    let to = sub(o, p1);
    let u = dot(to, p) * inv;
    let q = cross(to, e1);
    let w = dot(d, q) * inv;
    TriSample { det: s(det), u: s(u), v: s(w), sum: s(u + w), t: s(dot(e2, q) * inv) }
}

fn slabs(b: &AABB, o: V, d: V) -> (Vec3, Vec3) {
    let (lo, hi) = (arr(b.min), arr(b.max));
    let mut t0 = [0.0f32; 3];
    let mut t1 = [0.0f32; 3];
    for a in 0..3 {
        let inv = 1.0 / d[a];
        t0[a] = (lo[a] - o[a]) * inv;
        t1[a] = (hi[a] - o[a]) * inv;
    }
    (v3(t0), v3(t1))
}

fn probe(tree: &KDTree, v: &Vec<Vec3>, n: usize, o: V, d: V) -> NodeProbe {
    let node = tree.node(n);
    let (t0s, t1s) = slabs(&node.aabb, o, d);
    match &node.kind {
        KDNodeKind::Internal { axis, split, .. } => {
            let a = *axis as usize;
            NodeProbe {
                t0s,
                t1s,
                t_split: s((f(*split) - o[a]) / d[a]),
                dir: s(d[a]),
                samples: Vec::new(),
            }
        }
        KDNodeKind::Leaf(tris) => NodeProbe {
            t0s,
            t1s,
            t_split: s(0.0),
            dir: s(0.0),
            samples: tris.iter().map(|&t| sample(v, t, o, d)).collect(),
        },
    }
}

fn table(tree: &KDTree, v: &Vec<Vec3>, o: V, d: V) -> Vec<NodeProbe> {
    (0..tree.len()).map(|n| probe(tree, v, n, o, d)).collect()
}

/// The walk as a renderer runs it: a probe is computed only where asked for.
fn lazy_walk(tree: &KDTree, v: &Vec<Vec3>, o: V, d: V) -> (Option<KdHit>, usize) {
    let (t0s, t1s) = slabs(&tree.node(0).aabb, o, d);
    let mut walk = KdWalk::start(tree, t0s, t1s);
    let mut steps = 0;
    while let Some(n) = walk.current() {
        walk.step(&probe(tree, v, n, o, d));
        steps += 1;
    }
    (walk.best(), steps)
}

fn brute_force(index: &Vec<Tri>, v: &Vec<Vec3>, o: V, d: V) -> Option<f32> {
    let mut best: Option<f32> = None;
    for &t in index {
        let smp = sample(v, t, o, d);
        if smp.accepts() && f(smp.t) < best.unwrap_or(1e9) {
            best = Some(f(smp.t));
        }
    }
    best
}

fn rays(count: usize, seed: u64) -> Vec<(V, V)> {
    let mut rng = Lcg(seed);
    let mut out = Vec::new();
    for _ in 0..count {
        let o = [3.0 * rng.next() - 1.0, 3.0 * rng.next() - 1.0, 5.0 * rng.next() - 1.0];
        let to = [1.4 * rng.next() - 0.2, 1.4 * rng.next() - 0.2, 2.0 + 0.5 * rng.next()];
        out.push((o, unit(sub(to, o))));
    }
    out
}

fn leaves(tree: &KDTree) -> Vec<Tri> {
    let mut out = Vec::new();
    for n in 0..tree.len() {
        if let KDNodeKind::Leaf(tris) = &tree.node(n).kind {
            out.extend(tris.iter().copied());
        }
    }
    out
}

#[test]
fn partition_sorts_and_cuts_at_the_median() {
    // four thin triangles whose lowest x are 3, 1, 2, 0
    let mut v = Vec::new();
    for x in [3.0f32, 1.0, 2.0, 0.0] {
        v.push(v3([x, 0.0, 0.0]));
        v.push(v3([x + 0.5, 1.0, 0.0]));
        v.push(v3([x + 1.5, 0.0, 1.0]));
    }
    let tris = vec![(0, 1, 2), (3, 4, 5), (6, 7, 8), (9, 10, 11)];
    let p = partition(&tris, &v, 0);
    assert_eq!(p.sorted, vec![(9, 10, 11), (3, 4, 5), (6, 7, 8), (0, 1, 2)]);
    assert_eq!(p.plane, s(2.0));
    assert_eq!(p.left, vec![(9, 10, 11), (3, 4, 5)]);
    // the triangle from 1 to 2.5 straddles the plane and goes to both sides
    assert_eq!(p.right, vec![(3, 4, 5), (6, 7, 8), (0, 1, 2)]);
}

#[test]
fn partition_keeps_the_order_of_ties() {
    let v = vec![
        v3([0.0, 0.0, 0.0]),
        v3([1.0, 5.0, 0.0]),
        v3([1.0, 6.0, 0.0]),
        v3([1.0, 7.0, 0.0]),
        v3([-0.0, 8.0, 0.0]),
    ];
    // on axis 0 every triangle has its lowest corner at zero
    let tris = vec![(0, 3, 3), (4, 2, 2), (0, 1, 1), (4, 1, 2)];
    let p = partition(&tris, &v, 0);
    assert_eq!(p.sorted, tris);
    assert_eq!(p.plane, s(0.0));
    assert_eq!(p.left, vec![]);
    assert_eq!(p.right, tris);
    // on axis 1 they come out by their lowest y
    let p = partition(&tris, &v, 1);
    assert_eq!(p.sorted, vec![(0, 3, 3), (0, 1, 1), (4, 1, 2), (4, 2, 2)]);
    assert_eq!(p.plane, s(5.0));
}

#[test]
fn partition_orders_negative_numbers() {
    let v = vec![v3([-3.0, 0.0, 0.0]), v3([-1.0, 0.0, 0.0]), v3([-2.0, 0.0, 0.0]), v3([4.0, 0.0, 0.0])];
    let tris = vec![(1, 3, 3), (0, 3, 3), (3, 3, 3), (2, 3, 3)];
    let p = partition(&tris, &v, 0);
    assert_eq!(p.sorted, vec![(0, 3, 3), (2, 3, 3), (1, 3, 3), (3, 3, 3)]);
    assert_eq!(p.plane, s(-1.0));
    assert_eq!(p.left, vec![(0, 3, 3), (2, 3, 3)]);
    assert_eq!(p.right, tris_sorted_without_flat());
}

fn tris_sorted_without_flat() -> Vec<Tri> {
    vec![(0, 3, 3), (2, 3, 3), (1, 3, 3), (3, 3, 3)]
}

#[test]
fn triangle_extents() {
    let v = vec![v3([1.0, -2.0, 3.0]), v3([-4.0, 5.0, 0.5]), v3([0.0, 0.0, 7.0])];
    assert_eq!(lowest(&v, (0, 1, 2), 0), s(-4.0));
    assert_eq!(highest(&v, (0, 1, 2), 0), s(1.0));
    assert_eq!(lowest(&v, (0, 1, 2), 1), s(-2.0));
    assert_eq!(highest(&v, (0, 1, 2), 2), s(7.0));
    let b = bounding_box(&vec![(0, 1, 1), (2, 2, 2)], &v);
    assert_eq!(b.min, v3([-4.0, -2.0, 0.5]));
    assert_eq!(b.max, v3([1.0, 5.0, 7.0]));
    let none = bounding_box(&vec![], &v);
    assert_eq!(none.min, v3([1e9, 1e9, 1e9]));
    assert_eq!(none.max, v3([-1e9, -1e9, -1e9]));
}

#[test]
fn limits_of_the_build() {
    assert_eq!(LEAF_SIZE, 16);
    assert_eq!(MESH_DEPTH, 16);
}

#[test]
fn short_list_stays_a_leaf() {
    let (v, index) = sheet(3, 1);
    assert!(index.len() < LEAF_SIZE);
    let b = KdBuilder::new(index.clone(), &v, 16);
    assert!(b.pending().is_none());
    let tree = b.finish();
    assert_eq!(tree.len(), 1);
    match &tree.node(0).kind {
        KDNodeKind::Leaf(tris) => assert_eq!(tris, &index),
        _ => panic!("the root is cut"),
    }
    assert_eq!(tree.node(0).aabb, bounding_box(&index, &v));
}

#[test]
fn no_depth_stays_a_leaf() {
    let (v, index) = sheet(8, 2);
    assert!(index.len() >= LEAF_SIZE);
    let tree = build(index.clone(), &v, 0);
    assert_eq!(tree.len(), 1);
    assert_eq!(leaves(&tree), index);
}

#[test]
fn depth_is_capped() {
    let (v, index) = sheet(12, 3);
    let one = build(index.clone(), &v, 1);
    assert_eq!(one.len(), 3);
    let two = build(index, &v, 2);
    assert!(two.len() <= 7);
    assert!(two.len() > 3);
}

#[test]
fn cut_without_progress_stays_a_leaf() {
    // sixteen triangles that all start in the same place: the plane lies on
    // their common lowest corner and all of them reach above it
    let v = vec![v3([0.0, 0.0, 0.0]), v3([1.0, 0.0, 0.0]), v3([0.0, 1.0, 0.0])];
    let index: Vec<Tri> = (0..16).map(|_| (0, 1, 2)).collect();
    let mut b = KdBuilder::new(index.clone(), &v, 16);
    assert!(b.pending().is_some());
    b.split(0);
    assert!(b.pending().is_none());
    let tree = b.finish();
    assert_eq!(tree.len(), 1);
    assert_eq!(leaves(&tree), index);
}

#[test]
fn cut_makes_two_leaves() {
    let (v, index) = sheet(5, 4);
    assert_eq!(index.len(), 32);
    let mut b = KdBuilder::new(index.clone(), &v, 1);
    assert_eq!(b.pending(), Some(&index));
    b.split(0);
    assert!(b.pending().is_none());
    let tree = b.finish();
    assert_eq!(tree.len(), 3);
    let p = partition(&index, &v, 0);
    match &tree.node(0).kind {
        KDNodeKind::Internal { left, right, axis, split } => {
            assert_eq!((*left, *right, *axis, *split), (1, 2, 0, p.plane));
        }
        _ => panic!("the root is a leaf"),
    }
    assert_eq!(tree.node(0).aabb, bounding_box(&index, &v));
    match (&tree.node(1).kind, &tree.node(2).kind) {
        (KDNodeKind::Leaf(l), KDNodeKind::Leaf(r)) => {
            assert_eq!(l, &p.left);
            assert_eq!(r, &p.right);
            assert_eq!(tree.node(1).aabb, bounding_box(l, &v));
            assert_eq!(tree.node(2).aabb, bounding_box(r, &v));
            for &t in l {
                assert!(f(lowest(&v, t, 0)) < f(p.plane));
            }
            for &t in r {
                assert!(f(highest(&v, t, 0)) > f(p.plane));
            }
        }
        _ => panic!("a half is cut"),
    }
}

#[test]
fn tree_holds_every_triangle() {
    let (v, index) = sheet(14, 5);
    let tree = build(index.clone(), &v, 16);
    assert!(tree.len() > 3);
    let held = leaves(&tree);
    for t in &index {
        assert!(held.contains(t));
    }
    for t in &held {
        assert!(index.contains(t));
    }
    for n in 0..tree.len() {
        if let KDNodeKind::Internal { left, right, axis, .. } = &tree.node(n).kind {
            assert!(n < *left && *left < tree.len());
            assert!(n < *right && *right < tree.len());
            assert!(*axis < 3);
        }
    }
}

#[test]
fn walk_finds_what_a_scan_of_all_triangles_finds() {
    let mut hits = 0;
    for seed in 0..4 {
        let (v, index) = sheet(15, 10 + seed);
        assert_eq!(index.len(), 392);
        let tree = build(index.clone(), &v, 16);
        for (o, d) in rays(400, 100 + seed) {
            let expect = brute_force(&index, &v, o, d);
            let (got, steps) = lazy_walk(&tree, &v, o, d);
            assert!(steps <= tree.len());
            match (expect, got) {
                (None, None) => {}
                (Some(a), Some(h)) => {
                    assert!((a - f(h.t)).abs() <= 1e-5 * a.abs().max(1.0), "{} {}", a, f(h.t));
                    hits += 1;
                }
                (a, b) => panic!("a scan finds {:?}, the walk {:?}", a, b),
            }
        }
    }
    assert!(hits > 200);
}

#[test]
fn walk_and_recursion_find_the_same() {
    for seed in 0..3 {
        let (v, index) = sheet(12, 20 + seed);
        let tree = build(index, &v, 16);
        for (o, d) in rays(300, 200 + seed) {
            let probes = table(&tree, &v, o, d);
            let by_stack = tree.short_stack(&probes);
            let by_recursion = tree.hit_rec(&probes);
            let (lazy, _) = lazy_walk(&tree, &v, o, d);
            assert_eq!(by_stack, by_recursion);
            assert_eq!(by_stack, lazy);
        }
    }
}

#[test]
fn walk_agrees_with_recursion_on_arbitrary_numbers() {
    // the two searches agree whatever the probes hold, even nonsense
    let (v, index) = sheet(10, 30);
    let tree = build(index, &v, 16);
    let mut rng = Lcg(7);
    for _ in 0..200 {
        let mut probes = Vec::new();
        for n in 0..tree.len() {
            let mut r = || s(4.0 * rng.next() - 1.0);
            let count = match &tree.node(n).kind {
                KDNodeKind::Leaf(tris) => tris.len(),
                _ => 0,
            };
            probes.push(NodeProbe {
                t0s: Vec3(r(), r(), r()),
                t1s: Vec3(r(), r(), r()),
                t_split: r(),
                dir: r(),
                samples: (0..count)
                    .map(|_| TriSample { det: r(), u: r(), v: r(), sum: r(), t: r() })
                    .collect(),
            });
        }
        assert_eq!(tree.short_stack(&probes), tree.hit_rec(&probes));
    }
}

#[test]
fn ray_past_the_mesh_finds_nothing() {
    let (v, index) = sheet(12, 40);
    let tree = build(index.clone(), &v, 16);
    let (o, d) = ([5.0, 5.0, 0.0], [0.0, 0.0, 1.0]);
    assert_eq!(brute_force(&index, &v, o, d), None);
    assert_eq!(lazy_walk(&tree, &v, o, d), (None, 0));
    let probes = table(&tree, &v, o, d);
    assert_eq!(tree.short_stack(&probes), None);
    assert_eq!(tree.hit_rec(&probes), None);
}

#[test]
fn ray_along_an_axis_finds_the_sheet() {
    let (v, index) = sheet(12, 41);
    let tree = build(index.clone(), &v, 16);
    let (o, d) = ([0.45, 0.55, 0.0], [0.0, 0.0, 1.0]);
    let expect = brute_force(&index, &v, o, d).unwrap();
    let (got, _) = lazy_walk(&tree, &v, o, d);
    assert_eq!(f(got.unwrap().t), expect);
    assert!(expect > 2.0 && expect < 2.5);
}

#[test]
fn rays_along_an_axis_find_what_a_scan_finds() {
    // a direction of zero on the cut's axis has a sign, and either sign
    // keeps the ray on the side of its origin
    let (v, index) = sheet(15, 42);
    let tree = build(index.clone(), &v, 16);
    let mut rng = Lcg(43);
    let mut hits = 0;
    for _ in 0..300 {
        let o = [rng.next(), rng.next(), 0.0];
        for d in [[0.0, 0.0, 1.0], [-0.0, 0.0, 1.0], [0.0, -0.0, 1.0], [-0.0, -0.0, 1.0]] {
            let expect = brute_force(&index, &v, o, d);
            let (got, _) = lazy_walk(&tree, &v, o, d);
            assert_eq!(got.map(|h| f(h.t)), expect);
            if expect.is_some() {
                hits += 1;
            }
        }
    }
    assert!(hits > 400);
}

#[test]
fn leaf_scan_keeps_the_first_of_the_nearest() {
    let tris = vec![(0, 1, 2), (3, 4, 5), (6, 7, 8), (9, 10, 11)];
    let hit = |t: f32| TriSample { det: s(1.0), u: s(0.25), v: s(0.25), sum: s(0.5), t: s(t) };
    let miss = TriSample { det: s(1.0), u: s(2.0), v: s(0.25), sum: s(2.25), t: s(0.5) };
    let found = scan_leaf(&tris, &vec![hit(5.0), miss, hit(3.0), hit(3.0)], None).unwrap();
    assert_eq!(found, KdHit { t: s(3.0), u: s(0.25), v: s(0.25), tri: (6, 7, 8) });
    // a hit that is no nearer than the best so far changes nothing
    let before = Some(KdHit { t: s(3.0), u: s(0.0), v: s(0.0), tri: (7, 7, 7) });
    assert_eq!(scan_leaf(&tris, &vec![hit(5.0), miss, hit(3.0), hit(4.0)], before), before);
    // nothing at or beyond the far distance is a hit
    assert_eq!(scan_leaf(&tris, &vec![hit(1e9), hit(2e9)], None), None);
    // a triangle without a sample is not tested
    assert_eq!(scan_leaf(&tris, &vec![hit(5.0)], None).unwrap().tri, (0, 1, 2));
    assert_eq!(scan_leaf(&tris, &vec![], None), None);
}

#[test]
fn mesh_keeps_its_parts() {
    let (v, index) = sheet(6, 50);
    let tree = build(index.clone(), &v, 16);
    let count = tree.len();
    let uv: Vec<Vec2> = v.iter().map(|p| Vec2(p.0, p.1)).collect();
    let norm: Vec<Vec3> = v.iter().map(|_| v3([0.0, 0.0, -1.0])).collect();
    let mesh = Mesh::new(v.clone(), uv.clone(), norm.clone(), index.clone(), tree);
    assert_eq!(mesh.index, index);
    assert_eq!(mesh.v, v);
    assert_eq!(mesh.uv, uv);
    assert_eq!(mesh.norm, norm);
    assert_eq!(mesh.kd.len(), count);
}

fn below(tree: &KDTree, n: usize) -> Vec<Tri> {
    match &tree.node(n).kind {
        KDNodeKind::Leaf(tris) => tris.clone(),
        KDNodeKind::Internal { left, right, .. } => {
            let mut all = below(tree, *left);
            all.extend(below(tree, *right));
            all
        }
    }
}

#[test]
fn every_node_indexes_what_stands_below_it() {
    let (v, index) = sheet(14, 60);
    let tree = build(index, &v, 16);
    for n in 0..tree.len() {
        let node = tree.node(n);
        let under = below(&tree, n);
        assert!(!under.is_empty());
        for a in 0..3 {
            let lo = under.iter().map(|t| f(lowest(&v, *t, a))).fold(f32::INFINITY, f32::min);
            let hi = under.iter().map(|t| f(highest(&v, *t, a))).fold(f32::NEG_INFINITY, f32::max);
            assert_eq!(f(node.aabb.min.get(a)), lo);
            assert_eq!(f(node.aabb.max.get(a)), hi);
        }
        if let KDNodeKind::Internal { left, right, axis, split } = &node.kind {
            let (l, r) = (below(&tree, *left), below(&tree, *right));
            for t in below(&tree, n) {
                let reaches_below = f(lowest(&v, t, *axis as usize)) < f(*split);
                let reaches_above = f(highest(&v, t, *axis as usize)) > f(*split);
                assert_eq!(l.contains(&t), reaches_below || !reaches_above);
                assert_eq!(r.contains(&t), reaches_above || !reaches_below);
            }
        }
    }
}

#[test]
fn tree_stays_within_its_budget() {
    let (v, index) = sheet(20, 61);
    for dep in 0..6u32 {
        let mut b = KdBuilder::new(index.clone(), &v, dep);
        let mut cuts = 0u32;
        loop {
            let axis = match b.pending() {
                Some(tris) => widest_axis(tris, &v),
                None => break,
            };
            b.split(axis);
            cuts += 1;
        }
        assert!(cuts <= (1 << dep) - 1);
        assert!(b.finish().len() <= (2usize << dep) - 1);
    }
}

#[test]
fn every_triangle_goes_left_or_right() {
    for seed in 0..5 {
        let (v, index) = sheet(9, 70 + seed);
        for axis in 0..3 {
            let p = partition(&index, &v, axis);
            assert_eq!(p.sorted.len(), index.len());
            for w in p.sorted.windows(2) {
                assert!(f(lowest(&v, w[0], axis)) <= f(lowest(&v, w[1], axis)));
            }
            for t in &index {
                assert!(p.left.contains(t) || p.right.contains(t));
                let below = f(lowest(&v, *t, axis)) < f(p.plane);
                let above = f(highest(&v, *t, axis)) > f(p.plane);
                assert_eq!(p.left.contains(t), below || !above);
                assert_eq!(p.right.contains(t), above || !below);
            }
        }
    }
}

fn wall(index: &mut Vec<Tri>, v: &mut Vec<Vec3>, x: f32) -> Tri {
    let at = v.len() as u32;
    v.push(v3([x, 0.0, 0.0]));
    v.push(v3([x, 1.0, 0.0]));
    v.push(v3([x, 0.0, 1.0]));
    index.push((at, at + 1, at + 2));
    (at, at + 1, at + 2)
}

/// Seventeen triangles side by side along x, and in their midst one that
/// lies flat in the plane through the median's lowest corner.
fn row_with_a_wall() -> (Vec<Vec3>, Vec<Tri>, Tri) {
    let mut v = Vec::new();
    let mut index = Vec::new();
    for i in 0..17u32 {
        let x = i as f32;
        v.push(v3([x, 0.0, 0.0]));
        v.push(v3([x + 0.5, 1.0, 0.0]));
        v.push(v3([x + 0.5, 0.0, 1.0]));
        index.push((3 * i, 3 * i + 1, 3 * i + 2));
    }
    let flat = wall(&mut index, &mut v, 9.0);
    (v, index, flat)
}

#[test]
fn triangle_flat_in_the_plane_goes_to_both_sides() {
    let (v, index, flat) = row_with_a_wall();
    let p = partition(&index, &v, 0);
    assert_eq!(p.plane, s(9.0));
    assert!(p.left.contains(&flat));
    assert!(p.right.contains(&flat));
    let mut b = KdBuilder::new(index.clone(), &v, 1);
    b.split(0);
    let tree = b.finish();
    assert_eq!(tree.len(), 3);
    for n in 1..3 {
        match &tree.node(n).kind {
            KDNodeKind::Leaf(tris) => assert!(tris.contains(&flat)),
            _ => panic!("a half is cut"),
        }
    }
    let held = leaves(&tree);
    for t in &index {
        assert!(held.contains(t));
    }
}

#[test]
fn ray_at_a_triangle_flat_in_a_plane_finds_it() {
    let (v, index, flat) = row_with_a_wall();
    let tree = build(index.clone(), &v, 16);
    // along x, through the wall only: the row lies at y + z <= 1
    let (o, d) = ([-5.0, 0.2, 0.2], [1.0, 0.0, 0.0]);
    let expect = brute_force(&index, &v, o, d).unwrap();
    let (got, _) = lazy_walk(&tree, &v, o, d);
    let got = got.unwrap();
    assert_eq!(f(got.t), expect);
    let nearest = index
        .iter()
        .filter(|t| sample(&v, **t, o, d).accepts())
        .min_by(|a, b| f(sample(&v, **a, o, d).t).total_cmp(&f(sample(&v, **b, o, d).t)))
        .unwrap();
    assert_eq!(got.tri, *nearest);
    // from the other side the wall is the nearest thing hit
    let (o, d) = ([30.0, 0.6, 0.3], unit([-1.0, -0.0, 0.0]));
    let scan = brute_force(&index, &v, o, d);
    let (got, _) = lazy_walk(&tree, &v, o, d);
    assert_eq!(got.map(|h| f(h.t)), scan);
    let _ = flat;
}

#[test]
fn walls_and_floors_stay_in_the_tree() {
    // a sheet with axis-aligned walls and floors in it, many in one plane
    let (mut v, mut index) = sheet(10, 80);
    let mut flats = Vec::new();
    for k in 0..40u32 {
        flats.push(wall(&mut index, &mut v, 0.1 * (k % 4) as f32 + 0.3));
    }
    for k in 0..40u32 {
        let at = v.len() as u32;
        let z = 2.0 + 0.1 * (k % 3) as f32;
        v.push(v3([0.0, 0.0, z]));
        v.push(v3([1.0, 0.0, z]));
        v.push(v3([0.0, 1.0, z]));
        index.push((at, at + 1, at + 2));
        flats.push((at, at + 1, at + 2));
    }
    let tree = build(index.clone(), &v, 16);
    assert!(tree.len() > 3);
    let held = leaves(&tree);
    for t in &index {
        assert!(held.contains(t));
    }
    for t in &held {
        assert!(index.contains(t));
    }
    for (o, d) in rays(300, 81) {
        let expect = brute_force(&index, &v, o, d);
        let (got, _) = lazy_walk(&tree, &v, o, d);
        match (expect, got) {
            (None, None) => {}
            (Some(a), Some(h)) => assert!((a - f(h.t)).abs() <= 1e-5 * a.abs().max(1.0)),
            (a, b) => panic!("a scan finds {:?}, the walk {:?}", a, b),
        }
    }
    for (x, y) in [(0.2f32, 0.2f32), (0.31, 0.4), (0.45, 0.1), (0.7, 0.2)] {
        let (o, d) = ([x, y, 0.0], [0.0, 0.0, 1.0]);
        let (got, _) = lazy_walk(&tree, &v, o, d);
        assert_eq!(got.map(|h| f(h.t)), brute_force(&index, &v, o, d));
    }
}
