//! Fixed-layout, 16-byte-aligned projections of the node arena and the box
//! array for upload to GPU storage buffers.
//!
//! The one bit-exact contract between the builder and the traversal code
//! reading these buffers is the leaf sentinel: a node is a leaf if and only
//! if both `left` and `right` are 0.  Slot 0 is always the root and never a
//! child, so 0 can serve as "no child"; the builder writes every internal
//! node's children at indices of 1 or more.  `size` is the number of
//! elements in the node's range, never 0 for a node of a finished build.

use vstd::prelude::*;
use crate::aabb::{AABB, Vec3I};
use crate::bvh::BVHNode;

verus! {

/// GPU record of one node: box corners padded to 16 bytes each, followed by
/// child indices and the element range as `start`/`size`.
#[derive(Clone, Copy, PartialEq, Eq, Structural, Debug)]
pub struct BVHNodeGPU {
    pub lb: Vec3I,
    pub pad0: u32,
    pub ub: Vec3I,
    pub pad1: u32,
    pub left: u32,
    pub right: u32,
    pub start: u32,
    pub size: u32,
}

/// GPU record of one box: corners padded to 16 bytes each.
#[derive(Clone, Copy, PartialEq, Eq, Structural, Debug)]
pub struct AABBGPU {
    pub lb: Vec3I,
    pub pad0: u32,
    pub ub: Vec3I,
    pub pad1: u32,
}

/// An arena node fits the GPU record: range ordered and all indices within
/// 32 bits.
pub open spec fn node_fits(n: BVHNode) -> bool {
    &&& n.start <= n.end
    &&& n.end <= u32::MAX as usize
    &&& n.left <= u32::MAX as usize
    &&& n.right <= u32::MAX as usize
    &&& (!n.is_leaf ==> 1 <= n.left && 1 <= n.right)
}

/// The GPU projection of one node: a leaf drops its (absent) children to the
/// 0 sentinel, an internal node keeps its child indices; both keep their
/// bounds and range.
pub open spec fn spec_gpu_node(n: BVHNode) -> BVHNodeGPU {
    BVHNodeGPU {
        lb: n.bounds.lb,
        pad0: 0,
        ub: n.bounds.ub,
        pad1: 0,
        left: if n.is_leaf {
            0
        } else {
            n.left as u32
        },
        right: if n.is_leaf {
            0
        } else {
            n.right as u32
        },
        start: n.start as u32,
        size: (n.end - n.start) as u32,
    }
}

impl BVHNodeGPU {
    /// Projects one arena node into the GPU layout.
    pub fn from_node(n: &BVHNode) -> (r: BVHNodeGPU)
        requires
            node_fits(*n),
        ensures
            r == spec_gpu_node(*n),
            (r.left == 0 && r.right == 0) <==> n.is_leaf,
    {
        BVHNodeGPU {
            lb: n.bounds.lb,
            pad0: 0,
            ub: n.bounds.ub,
            pad1: 0,
            left: if n.is_leaf {
                0
            } else {
                n.left as u32
            },
            right: if n.is_leaf {
                0
            } else {
                n.right as u32
            },
            start: n.start as u32,
            size: (n.end - n.start) as u32,
        }
    }
}

impl AABBGPU {
    /// Projects one box into the GPU layout.
    pub fn from_aabb(a: &AABB) -> (r: AABBGPU)
        ensures
            r == (AABBGPU { lb: a.lb, pad0: 0, ub: a.ub, pad1: 0 }),
    {
        AABBGPU { lb: a.lb, pad0: 0, ub: a.ub, pad1: 0 }
    }
}

/// Projects a whole arena into the GPU layout, record for record, with the
/// leaf sentinel holding exactly for the leaves.
pub fn flatten_nodes(nodes: &Vec<BVHNode>) -> (r: Vec<BVHNodeGPU>)
    requires
        forall|k: int| 0 <= k < nodes@.len() ==> node_fits(#[trigger] nodes@[k]),
    ensures
        r@.len() == nodes@.len(),
        forall|k: int| 0 <= k < nodes@.len() ==> (#[trigger] r@[k]) == spec_gpu_node(nodes@[k]),
        forall|k: int|
            0 <= k < nodes@.len() ==> ((#[trigger] r@[k]).left == 0 && r@[k].right == 0)
                == nodes@[k].is_leaf,
{
    let mut out: Vec<BVHNodeGPU> = Vec::new();
    let mut i: usize = 0;
    while i < nodes.len()
        invariant
            i <= nodes@.len(),
            out@.len() == i,
            forall|k: int| 0 <= k < nodes@.len() ==> node_fits(#[trigger] nodes@[k]),
            forall|k: int| 0 <= k < i ==> (#[trigger] out@[k]) == spec_gpu_node(nodes@[k]),
        decreases nodes@.len() - i,
    {
        out.push(BVHNodeGPU::from_node(&nodes[i]));
        i = i + 1;
    }
    out
}

/// Checked projection: verifies at run time that every node fits the GPU
/// record and returns nothing when one does not, instead of a wrong buffer.
pub fn flatten_nodes_checked(nodes: &Vec<BVHNode>) -> (r: Option<Vec<BVHNodeGPU>>)
    ensures
        r is Some <==> (forall|k: int| 0 <= k < nodes@.len() ==> node_fits(#[trigger] nodes@[k])),
        r is Some ==> {
            let v = r->Some_0;
            &&& v@.len() == nodes@.len()
            &&& forall|k: int|
                0 <= k < nodes@.len() ==> (#[trigger] v@[k]) == spec_gpu_node(nodes@[k])
        },
{
    let mut i: usize = 0;
    while i < nodes.len()
        invariant
            i <= nodes@.len(),
            forall|k: int| 0 <= k < i ==> node_fits(#[trigger] nodes@[k]),
        decreases nodes@.len() - i,
    {
        let n = &nodes[i];
        let ok = n.start <= n.end && n.end <= u32::MAX as usize && n.left <= u32::MAX as usize
            && n.right <= u32::MAX as usize && (n.is_leaf || (1 <= n.left && 1 <= n.right));
        if !ok {
            return None;
        }
        i = i + 1;
    }
    Some(flatten_nodes(nodes))
}

/// Projects the world-box array into the GPU layout, record for record.
pub fn flatten_aabbs(aabbs: &Vec<AABB>) -> (r: Vec<AABBGPU>)
    ensures
        r@.len() == aabbs@.len(),
        forall|k: int|
            0 <= k < aabbs@.len() ==> (#[trigger] r@[k]) == (AABBGPU {
                lb: aabbs@[k].lb,
                pad0: 0,
                ub: aabbs@[k].ub,
                pad1: 0,
            }),
{
    let mut out: Vec<AABBGPU> = Vec::new();
    let mut i: usize = 0;
    while i < aabbs.len()
        invariant
            i <= aabbs@.len(),
            out@.len() == i,
            forall|k: int|
                0 <= k < i ==> (#[trigger] out@[k]) == (AABBGPU {
                    lb: aabbs@[k].lb,
                    pad0: 0,
                    ub: aabbs@[k].ub,
                    pad1: 0,
                }),
        decreases aabbs@.len() - i,
    {
        out.push(AABBGPU::from_aabb(&aabbs[i]));
        i = i + 1;
    }
    out
}

} // verus!
