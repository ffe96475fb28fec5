//! Top-level acceleration structure: a BVH over the scene's instances, built
//! from each instance's world-space bounding box and rebuilt wholesale
//! whenever the instance set changes.  The per-instance mesh ids travel in
//! lockstep with the boxes through the builder's swaps, so the leaf ranges of
//! the finished tree index both arrays consistently.

use vstd::prelude::*;
use crate::aabb::AABB;
use crate::blas::{root_placeholder, BLAS};
use crate::bvh::{
    all_valid, build_rec, initialize, node_ok_in, swap_seq, wf_tree, BVHNode, Elem, BVH,
    LEAF_THRESHOLD,
};

verus! {

/// One scene instance as top-level construction consumes it: the mesh it
/// refers to and its bounding box already mapped into world space and
/// quantized.
#[derive(Clone, Copy, PartialEq, Eq, Structural, Debug)]
pub struct Instance {
    pub mesh: usize,
    pub aabb: AABB,
}

/// Ghost model of the instance arrays as buildable elements: each world box
/// with its centroid, carrying the mesh id as payload.
pub open spec fn instance_elems(aabbs: Seq<AABB>, blas: Seq<usize>) -> Seq<Elem<int>> {
    Seq::new(
        aabbs.len(),
        |i: int| Elem { bounds: aabbs[i], centroid: aabbs[i].spec_center(), data: blas[i] as int },
    )
}

/// The arena and reordered element models of a top-level build.
pub open spec fn spec_build_tlas(aabbs: Seq<AABB>, blas: Seq<usize>, lt: int) -> (Seq<BVHNode>, Seq<
    Elem<int>,
>) {
    build_rec(
        instance_elems(aabbs, blas),
        seq![root_placeholder(aabbs.len() as int)],
        0,
        0,
        aabbs.len() as int,
        lt,
    )
}

/// The per-scene BVH: node arena (root at index 0), the mesh id each element
/// points at, and each element's world-space box, the latter two reordered in
/// lockstep by the build.
pub struct TLAS {
    pub nodes: Vec<BVHNode>,
    pub blas: Vec<usize>,
    pub aabbs: Vec<AABB>,
}

impl BVH for TLAS {
    type Data = int;

    open spec fn elems(&self) -> Seq<Elem<int>> {
        instance_elems(self.aabbs@, self.blas@)
    }

    open spec fn arena(&self) -> Seq<BVHNode> {
        self.nodes@
    }

    open spec fn wf(&self) -> bool {
        &&& self.aabbs@.len() == self.blas@.len()
        &&& forall|i: int| 0 <= i < self.aabbs@.len() ==> (#[trigger] self.aabbs@[i]).valid()
    }

    fn num_elems(&self) -> (n: usize) {
        self.aabbs.len()
    }

    fn elem_bounds(&self, elem: usize) -> (r: AABB) {
        self.aabbs[elem]
    }

    fn elem_centroid(&self, elem: usize) -> (r: crate::aabb::Vec3I) {
        self.aabbs[elem].center()
    }

    fn elem_swap(&mut self, elem: usize, elem2: usize) {
        let a = self.aabbs[elem];
        let a2 = self.aabbs[elem2];
        self.aabbs[elem] = a2;
        self.aabbs[elem2] = a;
        let b = self.blas[elem];
        let b2 = self.blas[elem2];
        self.blas[elem] = b2;
        self.blas[elem2] = b;
        proof {
            assert(self.elems() =~= swap_seq(old(self).elems(), elem as int, elem2 as int));
        }
    }

    fn push_node(&mut self, node: BVHNode) -> (i: usize) {
        let i = self.nodes.len();
        self.nodes.push(node);
        i
    }

    fn set_node(&mut self, idx: usize, node: BVHNode) {
        self.nodes[idx] = node;
    }

    fn node(&self, idx: usize) -> (r: BVHNode) {
        self.nodes[idx]
    }

    fn node_bounds(&self, idx: usize) -> (r: AABB) {
        self.nodes[idx].bounds
    }
}

impl TLAS {
    /// Builds the scene hierarchy over the instances' world boxes, with the
    /// mesh ids carried in lockstep.  The result is a pure function of the
    /// input order; the box/id pairs end up permuted with nothing else
    /// changed; and the tree is well-formed: the root at index 0 covers
    /// `[0, n)`, every internal node's bounds are the union of its
    /// children's, and the leaf ranges partition `[0, n)` (apply
    /// [`crate::bvh::lemma_leaf_ranges_partition`] to the `wf_tree` fact
    /// below).  Empty scenes are the caller's short-circuit: a build needs
    /// at least one instance.
    pub fn new(aabbs: Vec<AABB>, blas: Vec<usize>) -> (r: TLAS)
        requires
            aabbs@.len() == blas@.len(),
            1 <= aabbs@.len(),
            aabbs@.len() <= (usize::MAX as int - 1) / 2,
            forall|i: int| 0 <= i < aabbs@.len() ==> (#[trigger] aabbs@[i]).valid(),
        ensures
            r.aabbs@.len() == aabbs@.len(),
            r.blas@.len() == blas@.len(),
            ({
                let built = spec_build_tlas(aabbs@, blas@, LEAF_THRESHOLD as int);
                r.nodes@ == built.0 && instance_elems(r.aabbs@, r.blas@) == built.1
            }),
            instance_elems(r.aabbs@, r.blas@).to_multiset() == instance_elems(
                aabbs@,
                blas@,
            ).to_multiset(),
            1 <= r.nodes@.len(),
            wf_tree(
                r.nodes@,
                instance_elems(r.aabbs@, r.blas@),
                0,
                0,
                aabbs@.len() as int,
                1,
                r.nodes@.len() as int,
            ),
            forall|k: int|
                0 <= k < r.nodes@.len() ==> node_ok_in(
                    r.nodes@,
                    instance_elems(r.aabbs@, r.blas@),
                    k,
                    0,
                    aabbs@.len() as int,
                    1,
                    r.nodes@.len() as int,
                ),
    {
        let n = aabbs.len();
        let root = BVHNode {
            is_leaf: true,
            bounds: AABB::empty(),
            left: 0,
            right: 0,
            start: 0,
            end: n,
        };
        let mut bvh = TLAS { nodes: vec![root], blas, aabbs };
        proof {
            assert(bvh.nodes@ =~= seq![root_placeholder(n as int)]);
            assert(all_valid(bvh.elems()));
        }
        initialize(&mut bvh, LEAF_THRESHOLD);
        bvh
    }
}

/// The instances whose mesh id refers to a registered mesh, in order.
pub open spec fn kept_instances(s: Seq<Instance>, count: int) -> Seq<Instance>
    decreases s.len(),
{
    if s.len() == 0 {
        Seq::empty()
    } else if s.last().mesh < count {
        kept_instances(s.drop_last(), count) + seq![s.last()]
    } else {
        kept_instances(s.drop_last(), count)
    }
}

/// The positions of the instances whose mesh id is unregistered, in order.
pub open spec fn skipped_indices(s: Seq<Instance>, count: int) -> Seq<usize>
    decreases s.len(),
{
    if s.len() == 0 {
        Seq::empty()
    } else if s.last().mesh < count {
        skipped_indices(s.drop_last(), count)
    } else {
        skipped_indices(s.drop_last(), count) + seq![(s.len() - 1) as usize]
    }
}

/// An instance that names an unregistered mesh (id at or above `blas_count`)
/// is skipped, not fatal: the kept instances stay in order and the skipped
/// positions are surfaced to the caller.
pub fn filter_bound_instances(instances: &Vec<Instance>, blas_count: usize) -> (r: (
    Vec<Instance>,
    Vec<usize>,
))
    ensures
        r.0@ == kept_instances(instances@, blas_count as int),
        r.1@ == skipped_indices(instances@, blas_count as int),
{
    let mut kept: Vec<Instance> = Vec::new();
    let mut skipped: Vec<usize> = Vec::new();
    let mut i: usize = 0;
    while i < instances.len()
        invariant
            i <= instances@.len(),
            kept@ == kept_instances(instances@.take(i as int), blas_count as int),
            skipped@ == skipped_indices(instances@.take(i as int), blas_count as int),
        decreases instances@.len() - i,
    {
        let inst = instances[i];
        proof {
            assert(instances@.take(i as int + 1).drop_last() =~= instances@.take(i as int));
            assert(instances@.take(i as int + 1).last() == instances@[i as int]);
        }
        if inst.mesh < blas_count {
            kept.push(inst);
        } else {
            skipped.push(i);
        }
        i = i + 1;
    }
    proof {
        assert(instances@.take(instances@.len() as int) =~= instances@);
    }
    (kept, skipped)
}

/// Splits instances into the parallel box and mesh-id arrays the top-level
/// build consumes.
pub fn split_instances(instances: &Vec<Instance>) -> (r: (Vec<AABB>, Vec<usize>))
    ensures
        r.0@.len() == instances@.len(),
        r.1@.len() == instances@.len(),
        forall|i: int|
            0 <= i < instances@.len() ==> (#[trigger] r.0@[i]) == instances@[i].aabb && r.1@[i]
                == instances@[i].mesh,
{
    let mut aabbs: Vec<AABB> = Vec::new();
    let mut ids: Vec<usize> = Vec::new();
    let mut i: usize = 0;
    while i < instances.len()
        invariant
            i <= instances@.len(),
            aabbs@.len() == i,
            ids@.len() == i,
            forall|j: int|
                0 <= j < i ==> (#[trigger] aabbs@[j]) == instances@[j].aabb && ids@[j]
                    == instances@[j].mesh,
        decreases instances@.len() - i,
    {
        let inst = instances[i];
        aabbs.push(inst.aabb);
        ids.push(inst.mesh);
        i = i + 1;
    }
    (aabbs, ids)
}

/// Looks up the root bounds of each kept instance's mesh: the box top-level
/// construction maps into world space.
pub fn instance_root_bounds(blases: &Vec<BLAS>, instances: &Vec<Instance>) -> (r: Vec<AABB>)
    requires
        forall|i: int|
            0 <= i < instances@.len() ==> (#[trigger] instances@[i]).mesh < blases@.len(),
        forall|i: int| 0 <= i < blases@.len() ==> 1 <= (#[trigger] blases@[i]).nodes@.len(),
    ensures
        r@.len() == instances@.len(),
        forall|i: int|
            0 <= i < instances@.len() ==> (#[trigger] r@[i]) == blases@[instances@[i].mesh as int]
                .nodes@[0].bounds,
{
    let mut out: Vec<AABB> = Vec::new();
    let mut i: usize = 0;
    while i < instances.len()
        invariant
            i <= instances@.len(),
            out@.len() == i,
            forall|j: int|
                0 <= j < instances@.len() ==> (#[trigger] instances@[j]).mesh < blases@.len(),
            forall|j: int| 0 <= j < blases@.len() ==> 1 <= (#[trigger] blases@[j]).nodes@.len(),
            forall|j: int|
                0 <= j < i ==> (#[trigger] out@[j]) == blases@[instances@[j].mesh as int]
                    .nodes@[0].bounds,
        decreases instances@.len() - i,
    {
        let mesh = instances[i].mesh;
        out.push(blases[mesh].root_bounds());
        i = i + 1;
    }
    out
}

} // verus!
