//! Bottom-level acceleration structure: an immutable BVH over one mesh's
//! triangles, built exactly once at mesh registration and never mutated
//! afterwards.  The root's bounds are exposed for top-level construction so
//! per-instance world boxes need not be recomputed from the triangles.

use vstd::prelude::*;
use crate::aabb::{AABB, Vec3I};
use crate::bvh::{
    all_valid, build_rec, initialize, node_ok_in, swap_seq, wf_tree, BVHNode, Elem, BVH,
    LEAF_THRESHOLD,
};

verus! {

/// One triangle of a mesh, with its vertices on the quantized world lattice.
#[derive(Clone, Copy, PartialEq, Eq, Structural, Debug)]
pub struct Triangle {
    pub a: Vec3I,
    pub b: Vec3I,
    pub c: Vec3I,
}

impl Triangle {
    /// The smallest box containing the three vertices.
    pub open spec fn spec_bounds(self) -> AABB {
        AABB::spec_union(
            AABB::spec_union(AABB { lb: self.a, ub: self.a }, AABB { lb: self.b, ub: self.b }),
            AABB { lb: self.c, ub: self.c },
        )
    }

    /// Bounding box of the triangle; always valid.
    pub fn bounds(self) -> (r: AABB)
        ensures
            r == self.spec_bounds(),
            r.valid(),
    {
        let r = AABB::from_point(self.a).extend(self.b).extend(self.c);
        proof {
            crate::aabb::lemma_union_valid(
                AABB { lb: self.a, ub: self.a },
                AABB { lb: self.b, ub: self.b },
            );
            crate::aabb::lemma_union_valid(
                AABB::spec_union(
                    AABB { lb: self.a, ub: self.a },
                    AABB { lb: self.b, ub: self.b },
                ),
                AABB { lb: self.c, ub: self.c },
            );
        }
        r
    }
}

/// Ghost model of one triangle as a buildable element: its box, the box's
/// centroid, and the triangle itself as the payload moved in lockstep.
pub open spec fn triangle_elem(t: Triangle) -> Elem<Triangle> {
    Elem { bounds: t.spec_bounds(), centroid: t.spec_bounds().spec_center(), data: t }
}

/// Ghost model of a triangle list.
pub open spec fn triangle_elems(ts: Seq<Triangle>) -> Seq<Elem<Triangle>> {
    Seq::new(ts.len(), |i: int| triangle_elem(ts[i]))
}

/// Triangle boxes are unions of point boxes, hence always valid.
pub proof fn lemma_triangle_elems_valid(ts: Seq<Triangle>)
    ensures
        all_valid(triangle_elems(ts)),
{
    assert forall|i: int| 0 <= i < ts.len() implies (#[trigger] triangle_elems(ts)[i])
        .bounds
        .valid() by {
        let t = ts[i];
        crate::aabb::lemma_union_valid(AABB { lb: t.a, ub: t.a }, AABB { lb: t.b, ub: t.b });
        crate::aabb::lemma_union_valid(
            AABB::spec_union(AABB { lb: t.a, ub: t.a }, AABB { lb: t.b, ub: t.b }),
            AABB { lb: t.c, ub: t.c },
        );
    }
}

/// The single root placeholder an arena holds before the builder runs over
/// `[0, n)`.
pub open spec fn root_placeholder(n: int) -> BVHNode {
    BVHNode {
        is_leaf: true,
        bounds: AABB::spec_empty(),
        left: 0,
        right: 0,
        start: 0,
        end: n as usize,
    }
}

/// The arena and reordered triangle models of a bottom-level build.
pub open spec fn spec_build_blas(ts: Seq<Triangle>, lt: int) -> (Seq<BVHNode>, Seq<
    Elem<Triangle>,
>) {
    build_rec(
        triangle_elems(ts),
        seq![root_placeholder(ts.len() as int)],
        0,
        0,
        ts.len() as int,
        lt,
    )
}

/// A per-mesh BVH: the node arena (root at index 0) and the triangle list,
/// reordered so each leaf's range indexes a contiguous run of it.
pub struct BLAS {
    pub nodes: Vec<BVHNode>,
    pub triangles: Vec<Triangle>,
}

impl BVH for BLAS {
    type Data = Triangle;

    open spec fn elems(&self) -> Seq<Elem<Triangle>> {
        triangle_elems(self.triangles@)
    }

    open spec fn arena(&self) -> Seq<BVHNode> {
        self.nodes@
    }

    open spec fn wf(&self) -> bool {
        true
    }

    fn num_elems(&self) -> (n: usize) {
        self.triangles.len()
    }

    fn elem_bounds(&self, elem: usize) -> (r: AABB) {
        self.triangles[elem].bounds()
    }

    fn elem_centroid(&self, elem: usize) -> (r: Vec3I) {
        self.triangles[elem].bounds().center()
    }

    fn elem_swap(&mut self, elem: usize, elem2: usize) {
        let t = self.triangles[elem];
        let t2 = self.triangles[elem2];
        self.triangles[elem] = t2;
        self.triangles[elem2] = t;
        proof {
            assert(self.elems() =~= swap_seq(old(self).elems(), elem as int, elem2 as int));
        }
    }

    fn push_node(&mut self, node: BVHNode) -> (i: usize) {
        let i = self.nodes.len();
        self.nodes.push(node);
        i
    }

    fn set_node(&mut self, idx: usize, node: BVHNode) {
        self.nodes[idx] = node;
    }

    fn node(&self, idx: usize) -> (r: BVHNode) {
        self.nodes[idx]
    }

    fn node_bounds(&self, idx: usize) -> (r: AABB) {
        self.nodes[idx].bounds
    }
}

impl BLAS {
    /// Builds the BVH over a mesh's triangle list.  The build is a pure
    /// function of the triangle order, the triangles end up permuted with
    /// nothing else changed, and the resulting tree is well-formed: the root
    /// at index 0 covers `[0, n)`, every internal node's bounds are the union
    /// of its children's, and the leaf ranges partition `[0, n)` (apply
    /// [`crate::bvh::lemma_leaf_ranges_partition`] to the `wf_tree` fact
    /// below).
    pub fn new(triangles: Vec<Triangle>) -> (r: BLAS)
        requires
            1 <= triangles@.len(),
            triangles@.len() <= (usize::MAX as int - 1) / 2,
        ensures
            r.triangles@.len() == triangles@.len(),
            ({
                let built = spec_build_blas(triangles@, LEAF_THRESHOLD as int);
                r.nodes@ == built.0 && triangle_elems(r.triangles@) == built.1
            }),
            triangle_elems(r.triangles@).to_multiset() == triangle_elems(
                triangles@,
            ).to_multiset(),
            1 <= r.nodes@.len(),
            wf_tree(
                r.nodes@,
                triangle_elems(r.triangles@),
                0,
                0,
                triangles@.len() as int,
                1,
                r.nodes@.len() as int,
            ),
            forall|k: int|
                0 <= k < r.nodes@.len() ==> node_ok_in(
                    r.nodes@,
                    triangle_elems(r.triangles@),
                    k,
                    0,
                    triangles@.len() as int,
                    1,
                    r.nodes@.len() as int,
                ),
    {
        let n = triangles.len();
        let root = BVHNode {
            is_leaf: true,
            bounds: AABB::empty(),
            left: 0,
            right: 0,
            start: 0,
            end: n,
        };
        let mut blas = BLAS { nodes: vec![root], triangles };
        proof {
            assert(blas.nodes@ =~= seq![root_placeholder(n as int)]);
            lemma_triangle_elems_valid(blas.triangles@);
        }
        initialize(&mut blas, LEAF_THRESHOLD);
        blas
    }

    /// The bounds of the root node, consumed by top-level construction.
    pub fn root_bounds(&self) -> (r: AABB)
        requires
            1 <= self.nodes@.len(),
        ensures
            r == self.nodes@[0].bounds,
    {
        self.nodes[0].bounds
    }
}

} // verus!
