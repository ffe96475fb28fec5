use tracer_core::aabb::{AABB, Vec3I};
use tracer_core::blas::{Triangle, BLAS};
use tracer_core::bvh::BVHNode;
use tracer_core::gpu::{flatten_aabbs, flatten_nodes_checked};
use tracer_core::tlas::{filter_bound_instances, split_instances, Instance, TLAS};

fn v(x: i32, y: i32, z: i32) -> Vec3I {
    Vec3I { x, y, z }
}

fn boxed(lb: (i32, i32, i32), ub: (i32, i32, i32)) -> AABB {
    AABB { lb: v(lb.0, lb.1, lb.2), ub: v(ub.0, ub.1, ub.2) }
}

/// Collects the leaf ranges of the subtree at `idx`, left to right.
fn collect_leaves(nodes: &[BVHNode], idx: usize, out: &mut Vec<(usize, usize)>) {
    let n = nodes[idx];
    if n.is_leaf {
        out.push((n.start, n.end));
    } else {
        collect_leaves(nodes, n.left, out);
        collect_leaves(nodes, n.right, out);
    }
}

/// Checks the tree invariants over the whole arena: every internal node's
/// bounds are the union of its children's, and the leaf ranges exactly
/// partition [0, n) with every leaf non-empty.
fn check_tree(nodes: &[BVHNode], n: usize) {
    for k in 0..nodes.len() {
        let node = nodes[k];
        assert!(node.start < node.end);
        if !node.is_leaf {
            let l = nodes[node.left];
            let r = nodes[node.right];
            assert_eq!(node.bounds, l.bounds.union(r.bounds));
            assert_eq!(node.start, l.start);
            assert_eq!(l.end, r.start);
            assert_eq!(r.end, node.end);
        }
    }
    assert_eq!(nodes[0].start, 0);
    assert_eq!(nodes[0].end, n);
    let mut leaves = Vec::new();
    collect_leaves(nodes, 0, &mut leaves);
    assert!(!leaves.is_empty());
    assert_eq!(leaves[0].0, 0);
    assert_eq!(leaves[leaves.len() - 1].1, n);
    for w in leaves.windows(2) {
        assert_eq!(w[0].1, w[1].0);
    }
    for leaf in &leaves {
        assert!(leaf.0 < leaf.1);
    }
}

#[test]
fn three_instances_split_as_expected() {
    // World boxes A, B, C along the x axis; the root covers all three, the
    // first split puts A and B apart from C, the next separates A from B,
    // and every leaf holds exactly one instance.
    let a = boxed((0, 0, 0), (1, 1, 1));
    let b = boxed((5, 0, 0), (6, 1, 1));
    let c = boxed((10, 0, 0), (11, 1, 1));
    let tlas = TLAS::new(vec![a, b, c], vec![0, 1, 2]);

    let root = tlas.nodes[0];
    assert_eq!(root.bounds, boxed((0, 0, 0), (11, 1, 1)));
    assert!(!root.is_leaf);

    // First split: {A, B} | {C}.
    let left = tlas.nodes[root.left];
    let right = tlas.nodes[root.right];
    assert_eq!((left.start, left.end), (0, 2));
    assert_eq!((right.start, right.end), (2, 3));
    assert!(right.is_leaf);
    assert_eq!(left.bounds, boxed((0, 0, 0), (6, 1, 1)));
    assert_eq!(right.bounds, c);

    // Second split: {A} | {B}.
    assert!(!left.is_leaf);
    let ll = tlas.nodes[left.left];
    let lr = tlas.nodes[left.right];
    assert!(ll.is_leaf && lr.is_leaf);
    assert_eq!((ll.start, ll.end), (0, 1));
    assert_eq!((lr.start, lr.end), (1, 2));

    // Instances were not reordered here, and the mesh ids stayed aligned.
    assert_eq!(tlas.aabbs, vec![a, b, c]);
    assert_eq!(tlas.blas, vec![0, 1, 2]);
    check_tree(&tlas.nodes, 3);
}

#[test]
fn build_sizes_and_validity() {
    // One box per instance, spread along x.
    for n in [1usize, 2, 3, 16, 10000] {
        let mut aabbs = Vec::new();
        let mut ids = Vec::new();
        for i in 0..n {
            let x = (i as i32) * 3;
            aabbs.push(boxed((x, 0, 0), (x + 1, 1, 1)));
            ids.push(i);
        }
        let tlas = TLAS::new(aabbs, ids);
        assert_eq!(tlas.nodes.len(), 2 * n - 1);
        check_tree(&tlas.nodes, n);
        let mut sorted = tlas.blas.clone();
        sorted.sort();
        let expect: Vec<usize> = (0..n).collect();
        assert_eq!(sorted, expect);
    }
}

#[test]
fn coincident_centroids_still_terminate() {
    // Adversarial input: every centroid coincides, so the threshold
    // partition degenerates and the builder must fall back to the middle
    // index at every level.
    for n in [2usize, 3, 7, 10000] {
        let aabbs = vec![boxed((4, 4, 4), (6, 6, 6)); n];
        let ids: Vec<usize> = (0..n).collect();
        let tlas = TLAS::new(aabbs, ids);
        assert_eq!(tlas.nodes.len(), 2 * n - 1);
        assert_eq!(tlas.nodes[0].bounds, boxed((4, 4, 4), (6, 6, 6)));
        check_tree(&tlas.nodes, n);
    }
}

#[test]
fn rebuilding_identical_input_gives_identical_tree() {
    let aabbs = vec![
        boxed((0, 0, 0), (2, 2, 2)),
        boxed((9, -4, 0), (12, -1, 3)),
        boxed((3, 3, 3), (4, 4, 4)),
        boxed((-8, 0, 1), (-5, 2, 2)),
        boxed((0, 7, 7), (1, 9, 9)),
    ];
    let ids = vec![4, 3, 2, 1, 0];
    let t1 = TLAS::new(aabbs.clone(), ids.clone());
    let t2 = TLAS::new(aabbs, ids);
    assert_eq!(t1.nodes, t2.nodes);
    assert_eq!(t1.aabbs, t2.aabbs);
    assert_eq!(t1.blas, t2.blas);
}

#[test]
fn blas_over_triangles() {
    let t0 = Triangle { a: v(0, 0, 0), b: v(2, 0, 0), c: v(0, 2, 0) };
    let t1 = Triangle { a: v(10, 0, 0), b: v(12, 0, 0), c: v(10, 2, 0) };
    assert_eq!(t0.bounds(), boxed((0, 0, 0), (2, 2, 0)));
    let blas = BLAS::new(vec![t0, t1]);
    assert_eq!(blas.root_bounds(), boxed((0, 0, 0), (12, 2, 0)));
    assert_eq!(blas.triangles.len(), 2);
    check_tree(&blas.nodes, 2);
    // A single triangle gives a single leaf.
    let single = BLAS::new(vec![t1]);
    assert_eq!(single.nodes.len(), 1);
    assert!(single.nodes[0].is_leaf);
    assert_eq!(single.root_bounds(), boxed((10, 0, 0), (12, 2, 0)));
}

#[test]
fn unregistered_meshes_are_skipped_and_surfaced() {
    let instances = vec![
        Instance { mesh: 0, aabb: boxed((0, 0, 0), (1, 1, 1)) },
        Instance { mesh: 5, aabb: boxed((2, 0, 0), (3, 1, 1)) },
        Instance { mesh: 1, aabb: boxed((4, 0, 0), (5, 1, 1)) },
    ];
    let (kept, skipped) = filter_bound_instances(&instances, 2);
    assert_eq!(kept.len(), 2);
    assert_eq!(kept[0], instances[0]);
    assert_eq!(kept[1], instances[2]);
    assert_eq!(skipped, vec![1]);

    let (aabbs, ids) = split_instances(&kept);
    assert_eq!(aabbs, vec![instances[0].aabb, instances[2].aabb]);
    assert_eq!(ids, vec![0, 1]);
}

#[test]
fn gpu_projection_and_leaf_sentinel() {
    let a = boxed((0, 0, 0), (1, 1, 1));
    let b = boxed((5, 0, 0), (6, 1, 1));
    let c = boxed((10, 0, 0), (11, 1, 1));
    let tlas = TLAS::new(vec![a, b, c], vec![0, 1, 2]);
    let gpu = flatten_nodes_checked(&tlas.nodes).unwrap();
    assert_eq!(gpu.len(), tlas.nodes.len());
    for (node, rec) in tlas.nodes.iter().zip(gpu.iter()) {
        // The one bit-exact contract: a record is a leaf exactly when both
        // child indices are the 0 sentinel.
        assert_eq!(node.is_leaf, rec.left == 0 && rec.right == 0);
        assert_eq!(rec.lb, node.bounds.lb);
        assert_eq!(rec.ub, node.bounds.ub);
        assert_eq!(rec.start as usize, node.start);
        assert_eq!(rec.size as usize, node.end - node.start);
        assert!(rec.size > 0);
        if !node.is_leaf {
            assert_eq!(rec.left as usize, node.left);
            assert_eq!(rec.right as usize, node.right);
        }
    }

    let boxes = flatten_aabbs(&tlas.aabbs);
    assert_eq!(boxes.len(), 3);
    assert_eq!(boxes[1].lb, b.lb);
    assert_eq!(boxes[1].ub, b.ub);
    assert_eq!((boxes[1].pad0, boxes[1].pad1), (0, 0));
}

#[test]
fn gpu_projection_refuses_malformed_nodes() {
    let bad = vec![BVHNode {
        is_leaf: true,
        bounds: boxed((0, 0, 0), (1, 1, 1)),
        left: 0,
        right: 0,
        start: 3,
        end: 1,
    }];
    assert!(flatten_nodes_checked(&bad).is_none());
    // An internal node with a 0 child index would collide with the leaf
    // sentinel, so it is refused as well.
    let collides = vec![BVHNode {
        is_leaf: false,
        bounds: boxed((0, 0, 0), (1, 1, 1)),
        left: 0,
        right: 2,
        start: 0,
        end: 2,
    }];
    assert!(flatten_nodes_checked(&collides).is_none());
}

#[test]
fn split_axis_follows_greatest_extent() {
    // The same three-box scene, but spread along y: the first split must
    // fall on the y axis, grouping the lower two boxes apart from the top.
    let a = boxed((0, 0, 0), (1, 1, 1));
    let b = boxed((0, 5, 0), (1, 6, 1));
    let c = boxed((0, 10, 0), (1, 11, 1));
    let tlas = TLAS::new(vec![a, b, c], vec![0, 1, 2]);
    let root = tlas.nodes[0];
    assert_eq!(root.bounds, boxed((0, 0, 0), (1, 11, 1)));
    let left = tlas.nodes[root.left];
    let right = tlas.nodes[root.right];
    assert_eq!((left.start, left.end), (0, 2));
    assert_eq!((right.start, right.end), (2, 3));
    assert_eq!(left.bounds, boxed((0, 0, 0), (1, 6, 1)));
    check_tree(&tlas.nodes, 3);
}
