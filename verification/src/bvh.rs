//! Generic top-down BVH construction over an arena of nodes.
//!
//! The builder is written once against the [`BVH`] capability trait (bounds,
//! centroid and in-place swap of elements, plus arena access) and reused for
//! both the per-mesh and the per-scene hierarchies.  Construction is pinned to
//! the recursive specification [`build_rec`], so a rebuild from identical
//! input yields a node-for-node identical tree; the structural lemmas below
//! derive the tree invariants (internal bounds are the union of their
//! children's, leaf ranges exactly partition the element range) from that
//! specification.

use vstd::prelude::*;
use vstd::seq_lib::group_to_multiset_ensures;
use crate::aabb::{axis_of, AABB, Vec3I};

verus! {

/// Ranges of at most this many elements become leaves.
pub const LEAF_THRESHOLD: usize = 1;

/// Ghost model of one buildable element: the bounding box and centroid the
/// builder reads, and the payload that the implementing collection moves in
/// lockstep with them (a mesh id, a triangle, ...).
pub ghost struct Elem<D> {
    pub bounds: AABB,
    pub centroid: Vec3I,
    pub data: D,
}

/// One node of the arena.  `start`/`end` delimit the element range the node
/// covers; a leaf stores no children, an internal node stores the arena
/// indices of its two children.
#[derive(Clone, Copy, PartialEq, Eq, Structural, Debug)]
pub struct BVHNode {
    pub is_leaf: bool,
    pub bounds: AABB,
    pub left: usize,
    pub right: usize,
    pub start: usize,
    pub end: usize,
}

/// The sequence `s` with the elements at `i` and `j` exchanged.
pub open spec fn swap_seq<D>(s: Seq<Elem<D>>, i: int, j: int) -> Seq<Elem<D>> {
    s.update(i, s[j]).update(j, s[i])
}

/// Every element's box is valid (corners ordered on every axis).
pub open spec fn all_valid<D>(es: Seq<Elem<D>>) -> bool {
    forall|i: int| 0 <= i < es.len() ==> (#[trigger] es[i]).bounds.valid()
}

/// Fold of `union` over the element boxes of `[start, end)`, starting from
/// the empty box.
pub open spec fn range_bounds<D>(es: Seq<Elem<D>>, start: int, end: int) -> AABB
    decreases end - start,
{
    if end <= start {
        AABB::spec_empty()
    } else {
        AABB::spec_union(range_bounds(es, start, end - 1), es[end - 1].bounds)
    }
}

/// Extent of a box along one axis.
pub open spec fn spec_extent(b: AABB, axis: int) -> int {
    axis_of(b.ub, axis) - axis_of(b.lb, axis)
}

/// The axis of greatest extent (x preferred over y over z on ties).
pub open spec fn spec_largest_axis(b: AABB) -> int {
    if spec_extent(b, 0) >= spec_extent(b, 1) && spec_extent(b, 0) >= spec_extent(b, 2) {
        0
    } else if spec_extent(b, 1) >= spec_extent(b, 2) {
        1
    } else {
        2
    }
}

/// One-pass threshold partition of `[i, end)`, continuing a pass in which
/// `[start, mid)` already holds the elements whose centroid coordinate on
/// `axis` is at most `m`.  Since `m` is a floored midpoint, "at most `m`"
/// is "below the exact midpoint, or on it when it falls on the lattice".
/// Returns the reordered sequence and the final `mid`.
pub open spec fn part_rec<D>(
    es: Seq<Elem<D>>,
    axis: int,
    m: int,
    i: int,
    end: int,
    mid: int,
) -> (Seq<Elem<D>>, int)
    decreases end - i,
{
    if i >= end {
        (es, mid)
    } else if axis_of(es[i].centroid, axis) <= m {
        part_rec(swap_seq(es, i, mid), axis, m, i + 1, end, mid + 1)
    } else {
        part_rec(es, axis, m, i + 1, end, mid)
    }
}

/// The node value pushed to reserve an arena slot before it is built.
pub open spec fn placeholder_node() -> BVHNode {
    BVHNode {
        is_leaf: true,
        bounds: AABB::spec_empty(),
        left: 0,
        right: 0,
        start: 0,
        end: 0,
    }
}

/// A leaf covering `[start, end)` with bounds `b`.
pub open spec fn leaf_node(b: AABB, start: int, end: int) -> BVHNode {
    BVHNode {
        is_leaf: true,
        bounds: b,
        left: 0,
        right: 0,
        start: start as usize,
        end: end as usize,
    }
}

/// An internal node covering `[start, end)` with children `left` and `right`.
pub open spec fn internal_node(b: AABB, left: int, right: int, start: int, end: int) -> BVHNode {
    BVHNode {
        is_leaf: false,
        bounds: b,
        left: left as usize,
        right: right as usize,
        start: start as usize,
        end: end as usize,
    }
}

/// The recursive build of the subtree rooted at arena slot `idx` over the
/// element range `[start, end)` with leaf threshold `lt`: compute the range's
/// bounds; emit a leaf for small ranges; otherwise partition the range at the
/// midpoint of the widest axis (falling back to the middle index when the
/// partition would leave a side empty), reserve two child slots, write the
/// internal node and recurse into both halves.  Returns the arena and the
/// reordered elements.
pub open spec fn build_rec<D>(
    es: Seq<Elem<D>>,
    ns: Seq<BVHNode>,
    idx: int,
    start: int,
    end: int,
    lt: int,
) -> (Seq<BVHNode>, Seq<Elem<D>>)
    decreases end - start,
{
    let b = range_bounds(es, start, end);
    if end - start <= lt || end - start <= 1 {
        (ns.update(idx, leaf_node(b, start, end)), es)
    } else {
        let axis = spec_largest_axis(b);
        let m = axis_of(b.spec_center(), axis);
        let pr = part_rec(es, axis, m, start, end, start);
        let es1 = pr.0;
        let mid0 = pr.1;
        let mid = if start < mid0 && mid0 < end {
            mid0
        } else {
            start + (end - start) / 2
        };
        let l = ns.len() as int;
        let r = l + 1;
        let ns1 = ns.push(placeholder_node()).push(placeholder_node()).update(
            idx,
            internal_node(b, l, r, start, end),
        );
        let left_built = build_rec(es1, ns1, l, start, mid, lt);
        let right_built = build_rec(left_built.1, left_built.0, r, mid, end, lt);
        right_built
    }
}

/// Folds over ranges that agree pointwise agree on their boxes.
pub proof fn lemma_range_bounds_congruence<D>(
    es1: Seq<Elem<D>>,
    es2: Seq<Elem<D>>,
    start: int,
    end: int,
)
    requires
        forall|j: int| start <= j < end ==> #[trigger] es1[j] == es2[j],
    ensures
        range_bounds(es1, start, end) == range_bounds(es2, start, end),
    decreases end - start,
{
    if end > start {
        lemma_range_bounds_congruence(es1, es2, start, end - 1);
    }
}

/// A fold splits at any interior point into a union of the two partial folds.
pub proof fn lemma_range_bounds_split<D>(es: Seq<Elem<D>>, a: int, b: int, c: int)
    requires
        a <= b <= c,
    ensures
        range_bounds(es, a, c) == AABB::spec_union(
            range_bounds(es, a, b),
            range_bounds(es, b, c),
        ),
    decreases c - b,
{
    if c == b {
        crate::aabb::lemma_union_empty(range_bounds(es, a, b));
    } else {
        lemma_range_bounds_split(es, a, b, c - 1);
        crate::aabb::lemma_union_assoc(
            range_bounds(es, a, b),
            range_bounds(es, b, c - 1),
            es[c - 1].bounds,
        );
    }
}

/// The fold over a non-empty range of valid boxes is valid.
pub proof fn lemma_range_bounds_valid<D>(es: Seq<Elem<D>>, start: int, end: int)
    requires
        all_valid(es),
        0 <= start < end <= es.len(),
    ensures
        range_bounds(es, start, end).valid(),
    decreases end - start,
{
    if end - start == 1 {
        crate::aabb::lemma_union_empty(es[start].bounds);
    } else {
        lemma_range_bounds_valid(es, start, end - 1);
        crate::aabb::lemma_union_valid(range_bounds(es, start, end - 1), es[end - 1].bounds);
    }
}

/// The fold over a range does not change when two elements inside the range
/// are exchanged.
pub proof fn lemma_range_bounds_swap<D>(es: Seq<Elem<D>>, start: int, end: int, i: int, j: int)
    requires
        start <= i <= j < end <= es.len(),
        0 <= start,
    ensures
        range_bounds(swap_seq(es, i, j), start, end) == range_bounds(es, start, end),
{
    let es2 = swap_seq(es, i, j);
    if i == j {
        assert(es2 =~= es);
        lemma_range_bounds_congruence(es2, es, start, end);
    } else {
        // Decompose both folds around positions i and j and commute the two
        // swapped boxes.
        let a1 = range_bounds(es, start, i);
        let c1 = range_bounds(es, i + 1, j);
        let e1 = range_bounds(es, j + 1, end);
        lemma_range_bounds_congruence(es2, es, start, i);
        lemma_range_bounds_congruence(es2, es, i + 1, j);
        lemma_range_bounds_congruence(es2, es, j + 1, end);
        lemma_range_bounds_decompose(es, start, end, i, j);
        lemma_range_bounds_decompose(es2, start, end, i, j);
        assert(es2[i] == es[j]);
        assert(es2[j] == es[i]);
        // Both folds equal a five-way union differing only in the order of
        // the two swapped boxes; min/max elementwise unions are associative
        // and commutative, so the two orders agree.
        lemma_union_five_comm(a1, es[i].bounds, c1, es[j].bounds, e1);
    }
}

/// Helper: the fold over `[start, end)` written as a five-way union around
/// two interior positions `i < j`.
proof fn lemma_range_bounds_decompose<D>(es: Seq<Elem<D>>, start: int, end: int, i: int, j: int)
    requires
        start <= i < j < end <= es.len(),
        0 <= start,
    ensures
        range_bounds(es, start, end) == AABB::spec_union(
            range_bounds(es, start, i),
            AABB::spec_union(
                es[i].bounds,
                AABB::spec_union(
                    range_bounds(es, i + 1, j),
                    AABB::spec_union(es[j].bounds, range_bounds(es, j + 1, end)),
                ),
            ),
        ),
{
    lemma_range_bounds_split(es, start, i, end);
    lemma_range_bounds_split(es, i, i + 1, end);
    lemma_range_bounds_split(es, i + 1, j, end);
    lemma_range_bounds_split(es, j, j + 1, end);
    lemma_single_range_bounds(es, i);
    lemma_single_range_bounds(es, j);
    crate::aabb::lemma_union_assoc(
        range_bounds(es, start, i),
        es[i].bounds,
        range_bounds(es, i + 1, end),
    );
    assert(range_bounds(es, i + 1, end) == AABB::spec_union(
        range_bounds(es, i + 1, j),
        AABB::spec_union(es[j].bounds, range_bounds(es, j + 1, end)),
    ));
}

/// Helper: the fold over a single element is that element's box.
proof fn lemma_single_range_bounds<D>(es: Seq<Elem<D>>, i: int)
    requires
        0 <= i < es.len(),
    ensures
        range_bounds(es, i, i + 1) == es[i].bounds,
{
    assert(range_bounds(es, i, i) == AABB::spec_empty());
    crate::aabb::lemma_union_empty(es[i].bounds);
}

/// Helper: exchanging the second and fourth term of a right-nested five-way
/// union leaves it unchanged.
proof fn lemma_union_five_comm(a: AABB, b: AABB, c: AABB, d: AABB, e: AABB)
    ensures
        AABB::spec_union(
            a,
            AABB::spec_union(b, AABB::spec_union(c, AABB::spec_union(d, e))),
        ) == AABB::spec_union(
            a,
            AABB::spec_union(d, AABB::spec_union(c, AABB::spec_union(b, e))),
        ),
{
}

/// Exchanging two elements leaves the sequence's multiset unchanged.
pub proof fn lemma_swap_multiset<D>(s: Seq<Elem<D>>, i: int, j: int)
    requires
        0 <= i < s.len(),
        0 <= j < s.len(),
    ensures
        swap_seq(s, i, j).to_multiset() == s.to_multiset(),
{
    broadcast use group_to_multiset_ensures;
    broadcast use vstd::multiset::group_multiset_axioms;
    broadcast use vstd::multiset::group_multiset_properties;

    if i == j {
        assert(swap_seq(s, i, j) =~= s);
    } else {
        let s1 = s.update(i, s[j]);
        assert(s1[j] == s[j]);
        assert(s1.to_multiset() == s.to_multiset().insert(s[j]).remove(s[i]));
        assert(swap_seq(s, i, j).to_multiset() == s1.to_multiset().insert(s[i]).remove(s1[j]));
        assert(s.to_multiset().count(s[i]) > 0) by {
            assert(s.contains(s[i]));
        }
        assert(swap_seq(s, i, j).to_multiset() =~= s.to_multiset());
    }
}

/// Frame and permutation facts about one partition pass: the length is kept,
/// nothing outside `[mid, end)` moves, the multiset of elements is kept, the
/// fold of the boxes over any enclosing window `[start, end)` is kept, the
/// returned split point stays within `[mid, end]`, and validity of all boxes
/// is preserved.
pub proof fn lemma_part_rec_props<D>(
    es: Seq<Elem<D>>,
    axis: int,
    m: int,
    i: int,
    end: int,
    mid: int,
    start: int,
)
    requires
        0 <= start <= mid <= i <= end <= es.len(),
    ensures
        ({
            let (es2, mid2) = part_rec(es, axis, m, i, end, mid);
            &&& es2.len() == es.len()
            &&& mid <= mid2 <= end
            &&& forall|k: int| 0 <= k < es.len() && !(mid <= k < end) ==> es2[k] == es[k]
            &&& es2.to_multiset() == es.to_multiset()
            &&& range_bounds(es2, start, end) == range_bounds(es, start, end)
            &&& (all_valid(es) ==> all_valid(es2))
        }),
    decreases end - i,
{
    if i >= end {
    } else if axis_of(es[i].centroid, axis) <= m {
        let esw = swap_seq(es, i, mid);
        assert(esw =~= swap_seq(es, mid, i));
        lemma_swap_multiset(es, i, mid);
        lemma_range_bounds_swap(es, start, end, mid, i);
        lemma_part_rec_props(esw, axis, m, i + 1, end, mid + 1, start);
    } else {
        lemma_part_rec_props(es, axis, m, i + 1, end, mid, start);
    }
}

/// Frame and permutation facts about one recursive build: the arena only
/// grows and no slot other than `idx` and the appended ones changes; the
/// elements keep their length and multiset, nothing outside `[start, end)`
/// moves, the fold of the boxes over `[start, end)` is kept, and validity of
/// all boxes is preserved.
pub proof fn lemma_build_rec_props<D>(
    es: Seq<Elem<D>>,
    ns: Seq<BVHNode>,
    idx: int,
    start: int,
    end: int,
    lt: int,
)
    requires
        0 <= start < end <= es.len(),
        0 <= idx < ns.len(),
        1 <= lt,
    ensures
        ({
            let (ns2, es2) = build_rec(es, ns, idx, start, end, lt);
            &&& ns2.len() >= ns.len()
            &&& ns2.len() <= ns.len() + 2 * (end - start) - 2
            &&& es2.len() == es.len()
            &&& forall|k: int| 0 <= k < ns.len() && k != idx ==> ns2[k] == ns[k]
            &&& forall|j: int| 0 <= j < es.len() && !(start <= j < end) ==> es2[j] == es[j]
            &&& es2.to_multiset() == es.to_multiset()
            &&& range_bounds(es2, start, end) == range_bounds(es, start, end)
            &&& (all_valid(es) ==> all_valid(es2))
        }),
    decreases end - start,
{
    let b = range_bounds(es, start, end);
    if end - start <= lt || end - start <= 1 {
    } else {
        let axis = spec_largest_axis(b);
        let m = axis_of(b.spec_center(), axis);
        let pr = part_rec(es, axis, m, start, end, start);
        let es1 = pr.0;
        let mid0 = pr.1;
        lemma_part_rec_props(es, axis, m, start, end, start, start);
        let mid = if start < mid0 && mid0 < end {
            mid0
        } else {
            start + (end - start) / 2
        };
        assert(start < mid < end);
        let l = ns.len() as int;
        let r = l + 1;
        let ns1 = ns.push(placeholder_node()).push(placeholder_node()).update(
            idx,
            internal_node(b, l, r, start, end),
        );
        let left_built = build_rec(es1, ns1, l, start, mid, lt);
        let ns2 = left_built.0;
        let es2 = left_built.1;
        lemma_build_rec_props(es1, ns1, l, start, mid, lt);
        let right_built = build_rec(es2, ns2, r, mid, end, lt);
        let ns3 = right_built.0;
        let es3 = right_built.1;
        lemma_build_rec_props(es2, ns2, r, mid, end, lt);

        // The fold over [start, end) survives both child builds: each keeps
        // its own half's fold and does not touch the other half.
        lemma_range_bounds_split(es1, start, mid, end);
        lemma_range_bounds_split(es2, start, mid, end);
        lemma_range_bounds_split(es3, start, mid, end);
        lemma_range_bounds_congruence(es2, es1, mid, end);
        lemma_range_bounds_congruence(es3, es2, start, mid);
    }
}

/// Structural well-formedness of the subtree rooted at arena slot `idx`
/// covering the element range `[start, end)`: the node records its range, its
/// bounds are the fold of the element boxes over the range, and an internal
/// node has both children inside the slot window `[lo, hi)`, covering the two
/// halves of its range at the split recorded in the left child, with bounds
/// equal to the union of the children's bounds.
pub open spec fn wf_tree<D>(
    ns: Seq<BVHNode>,
    es: Seq<Elem<D>>,
    idx: int,
    start: int,
    end: int,
    lo: int,
    hi: int,
) -> bool
    decreases end - start,
{
    &&& 0 <= idx < ns.len()
    &&& 0 <= lo <= hi <= ns.len()
    &&& 0 <= start < end <= es.len()
    &&& ns[idx].start as int == start
    &&& ns[idx].end as int == end
    &&& ns[idx].bounds == range_bounds(es, start, end)
    &&& (ns[idx].is_leaf || {
        let l = ns[idx].left as int;
        let r = ns[idx].right as int;
        &&& lo <= l < hi
        &&& lo <= r < hi
        &&& start < (ns[l].end as int) < end
        &&& wf_tree(ns, es, l, start, ns[l].end as int, lo, hi)
        &&& wf_tree(ns, es, r, ns[l].end as int, end, lo, hi)
        &&& ns[idx].bounds == AABB::spec_union(ns[l].bounds, ns[r].bounds)
    })
}

/// The local (per-slot) invariant of one arena node: its range is non-empty
/// and within `[s, e)`; a leaf's bounds are the fold of the element boxes
/// over its range, and an internal node's bounds are the union of its
/// children's, the children lying in the slot window `[lo, hi)`.
pub open spec fn node_ok_in<D>(
    ns: Seq<BVHNode>,
    es: Seq<Elem<D>>,
    k: int,
    s: int,
    e: int,
    lo: int,
    hi: int,
) -> bool {
    &&& 0 <= k < ns.len()
    &&& hi <= ns.len()
    &&& s <= ns[k].start as int
    &&& ns[k].start < ns[k].end
    &&& ns[k].end as int <= e
    &&& if ns[k].is_leaf {
        ns[k].bounds == range_bounds(es, ns[k].start as int, ns[k].end as int)
    } else {
        let l = ns[k].left as int;
        let r = ns[k].right as int;
        &&& lo <= l < hi
        &&& lo <= r < hi
        &&& ns[k].bounds == AABB::spec_union(ns[l].bounds, ns[r].bounds)
    }
}

/// A well-formed subtree survives changes that touch neither its slot
/// window, its root slot, nor its element range.
pub proof fn lemma_wf_tree_stable<D>(
    ns: Seq<BVHNode>,
    es: Seq<Elem<D>>,
    ns2: Seq<BVHNode>,
    es2: Seq<Elem<D>>,
    idx: int,
    start: int,
    end: int,
    lo: int,
    hi: int,
)
    requires
        wf_tree(ns, es, idx, start, end, lo, hi),
        ns2.len() >= ns.len(),
        ns2[idx] == ns[idx],
        forall|k: int| lo <= k < hi ==> ns2[k] == ns[k],
        es2.len() == es.len(),
        forall|j: int| start <= j < end ==> es2[j] == es[j],
    ensures
        wf_tree(ns2, es2, idx, start, end, lo, hi),
    decreases end - start,
{
    lemma_range_bounds_congruence(es2, es, start, end);
    if !ns[idx].is_leaf {
        let l = ns[idx].left as int;
        let r = ns[idx].right as int;
        lemma_wf_tree_stable(ns, es, ns2, es2, l, start, ns[l].end as int, lo, hi);
        lemma_wf_tree_stable(ns, es, ns2, es2, r, ns[l].end as int, end, lo, hi);
    }
}

/// A well-formed subtree stays well-formed under a larger slot window.
pub proof fn lemma_wf_tree_widen<D>(
    ns: Seq<BVHNode>,
    es: Seq<Elem<D>>,
    idx: int,
    start: int,
    end: int,
    lo: int,
    hi: int,
    lo2: int,
    hi2: int,
)
    requires
        wf_tree(ns, es, idx, start, end, lo, hi),
        0 <= lo2 <= lo,
        hi <= hi2 <= ns.len(),
    ensures
        wf_tree(ns, es, idx, start, end, lo2, hi2),
    decreases end - start,
{
    if !ns[idx].is_leaf {
        let l = ns[idx].left as int;
        let r = ns[idx].right as int;
        lemma_wf_tree_widen(ns, es, l, start, ns[l].end as int, lo, hi, lo2, hi2);
        lemma_wf_tree_widen(ns, es, r, ns[l].end as int, end, lo, hi, lo2, hi2);
    }
}

/// A locally well-formed slot survives changes that touch neither it, nor
/// its child window, nor its element range, and its windows may widen.
pub proof fn lemma_node_ok_stable<D>(
    ns: Seq<BVHNode>,
    es: Seq<Elem<D>>,
    ns2: Seq<BVHNode>,
    es2: Seq<Elem<D>>,
    k: int,
    s: int,
    e: int,
    lo: int,
    hi: int,
    s2: int,
    e2: int,
    lo2: int,
    hi2: int,
)
    requires
        node_ok_in(ns, es, k, s, e, lo, hi),
        ns2.len() >= ns.len(),
        ns2[k] == ns[k],
        forall|i: int| lo <= i < hi ==> ns2[i] == ns[i],
        es2.len() == es.len(),
        forall|j: int| s <= j < e ==> es2[j] == es[j],
        s2 <= s,
        e <= e2,
        0 <= lo2 <= lo,
        hi <= hi2 <= ns2.len(),
    ensures
        node_ok_in(ns2, es2, k, s2, e2, lo2, hi2),
{
    if ns[k].is_leaf {
        lemma_range_bounds_congruence(es2, es, ns[k].start as int, ns[k].end as int);
    }
}

/// Structural result of one recursive build: the subtree written at `idx` is
/// well-formed with all descendants among the appended slots, and every slot
/// the build wrote satisfies the local node invariant.
#[verifier::rlimit(100)]
pub proof fn lemma_build_rec_wf<D>(
    es: Seq<Elem<D>>,
    ns: Seq<BVHNode>,
    idx: int,
    start: int,
    end: int,
    lt: int,
)
    requires
        0 <= start < end <= es.len(),
        0 <= idx < ns.len(),
        1 <= lt,
        all_valid(es),
        ns.len() + 2 * (end - start) <= usize::MAX as int,
        end <= usize::MAX as int,
    ensures
        ({
            let (ns2, es2) = build_rec(es, ns, idx, start, end, lt);
            &&& wf_tree(ns2, es2, idx, start, end, ns.len() as int, ns2.len() as int)
            &&& node_ok_in(ns2, es2, idx, start, end, ns.len() as int, ns2.len() as int)
            &&& forall|k: int|
                ns.len() <= k < ns2.len() ==> node_ok_in(
                    ns2,
                    es2,
                    k,
                    start,
                    end,
                    ns.len() as int,
                    ns2.len() as int,
                )
        }),
    decreases end - start,
{
    let b = range_bounds(es, start, end);
    lemma_build_rec_props(es, ns, idx, start, end, lt);
    if end - start <= lt || end - start <= 1 {
    } else {
        let axis = spec_largest_axis(b);
        let m = axis_of(b.spec_center(), axis);
        let pr = part_rec(es, axis, m, start, end, start);
        let es1 = pr.0;
        let mid0 = pr.1;
        lemma_part_rec_props(es, axis, m, start, end, start, start);
        let mid = if start < mid0 && mid0 < end {
            mid0
        } else {
            start + (end - start) / 2
        };
        let l = ns.len() as int;
        let r = l + 1;
        let ns1 = ns.push(placeholder_node()).push(placeholder_node()).update(
            idx,
            internal_node(b, l, r, start, end),
        );
        let left_built = build_rec(es1, ns1, l, start, mid, lt);
        let ns2 = left_built.0;
        let es2 = left_built.1;
        let right_built = build_rec(es2, ns2, r, mid, end, lt);
        let ns3 = right_built.0;
        let es3 = right_built.1;
        lemma_build_rec_props(es1, ns1, l, start, mid, lt);
        lemma_build_rec_props(es2, ns2, r, mid, end, lt);
        lemma_build_rec_wf(es1, ns1, l, start, mid, lt);
        lemma_build_rec_wf(es2, ns2, r, mid, end, lt);

        // The left subtree survives the right build: slot r lies below the
        // left child window, and the right build only permutes [mid, end).
        lemma_wf_tree_stable(ns2, es2, ns3, es3, l, start, mid, ns1.len() as int, ns2.len() as int);
        lemma_wf_tree_widen(
            ns3,
            es3,
            l,
            start,
            mid,
            ns1.len() as int,
            ns2.len() as int,
            ns.len() as int,
            ns3.len() as int,
        );
        lemma_wf_tree_widen(
            ns3,
            es3,
            r,
            mid,
            end,
            ns2.len() as int,
            ns3.len() as int,
            ns.len() as int,
            ns3.len() as int,
        );

        // Folds over [start, end) and its two halves, in the final order.
        lemma_range_bounds_split(es3, start, mid, end);
        lemma_range_bounds_congruence(es3, es2, start, mid);
        lemma_range_bounds_congruence(es2, es1, mid, end);
        lemma_range_bounds_split(es1, start, mid, end);
        lemma_range_bounds_split(es2, start, mid, end);
        assert(range_bounds(es3, start, end) == b);
        assert(ns3[idx] == internal_node(b, l, r, start, end));
        assert(ns3[l].end as int == mid);
        assert(ns3[idx].bounds == AABB::spec_union(ns3[l].bounds, ns3[r].bounds));
        assert(wf_tree(ns3, es3, idx, start, end, ns.len() as int, ns3.len() as int));
        assert(node_ok_in(ns3, es3, idx, start, end, ns.len() as int, ns3.len() as int));

        // Every written slot is locally well-formed: the two children by the
        // recursive claims, the slots appended by the left build stably so,
        // and the slots appended by the right build directly.
        assert forall|k: int|
            ns.len() <= k < ns3.len() implies node_ok_in(
            ns3,
            es3,
            k,
            start,
            end,
            ns.len() as int,
            ns3.len() as int,
        ) by {
            if k == l {
                lemma_node_ok_stable(
                    ns2,
                    es2,
                    ns3,
                    es3,
                    k,
                    start,
                    mid,
                    ns1.len() as int,
                    ns2.len() as int,
                    start,
                    end,
                    ns.len() as int,
                    ns3.len() as int,
                );
            } else if k == r {
                lemma_node_ok_stable(
                    ns3,
                    es3,
                    ns3,
                    es3,
                    k,
                    mid,
                    end,
                    ns2.len() as int,
                    ns3.len() as int,
                    start,
                    end,
                    ns.len() as int,
                    ns3.len() as int,
                );
            } else if ns1.len() <= k < ns2.len() {
                lemma_node_ok_stable(
                    ns2,
                    es2,
                    ns3,
                    es3,
                    k,
                    start,
                    mid,
                    ns1.len() as int,
                    ns2.len() as int,
                    start,
                    end,
                    ns.len() as int,
                    ns3.len() as int,
                );
            } else {
                lemma_node_ok_stable(
                    ns3,
                    es3,
                    ns3,
                    es3,
                    k,
                    mid,
                    end,
                    ns2.len() as int,
                    ns3.len() as int,
                    start,
                    end,
                    ns.len() as int,
                    ns3.len() as int,
                );
            }
        }
    }
}

/// The leaf ranges of the subtree at `idx`, left to right.
pub open spec fn leaf_ranges(ns: Seq<BVHNode>, idx: int, start: int, end: int) -> Seq<(int, int)>
    decreases end - start,
{
    if !(0 <= idx < ns.len() && 0 <= start < end) {
        Seq::empty()
    } else if ns[idx].is_leaf {
        seq![(start, end)]
    } else {
        let l = ns[idx].left as int;
        let r = ns[idx].right as int;
        if 0 <= l < ns.len() && start < (ns[l].end as int) < end {
            leaf_ranges(ns, l, start, ns[l].end as int) + leaf_ranges(ns, r, ns[l].end as int, end)
        } else {
            Seq::empty()
        }
    }
}

/// `rs` exactly partitions `[start, end)`: it is non-empty, begins at
/// `start`, ends at `end`, every range is non-empty, and consecutive ranges
/// are adjacent — no gap, no overlap.
pub open spec fn ranges_partition(rs: Seq<(int, int)>, start: int, end: int) -> bool {
    &&& rs.len() >= 1
    &&& rs[0].0 == start
    &&& rs[rs.len() - 1].1 == end
    &&& forall|i: int| 0 <= i < rs.len() ==> (#[trigger] rs[i]).0 < rs[i].1
    &&& forall|i: int| 0 <= i < rs.len() - 1 ==> (#[trigger] rs[i]).1 == rs[i + 1].0
}

/// The leaf ranges of a well-formed tree exactly partition its element
/// range: no gap, no overlap, every leaf non-empty.
pub proof fn lemma_leaf_ranges_partition<D>(
    ns: Seq<BVHNode>,
    es: Seq<Elem<D>>,
    idx: int,
    start: int,
    end: int,
    lo: int,
    hi: int,
)
    requires
        wf_tree(ns, es, idx, start, end, lo, hi),
    ensures
        ranges_partition(leaf_ranges(ns, idx, start, end), start, end),
    decreases end - start,
{
    if !ns[idx].is_leaf {
        let l = ns[idx].left as int;
        let r = ns[idx].right as int;
        let mid = ns[l].end as int;
        lemma_leaf_ranges_partition(ns, es, l, start, mid, lo, hi);
        lemma_leaf_ranges_partition(ns, es, r, mid, end, lo, hi);
    }
}

/// Determinism: the built arena and element order are a function of the
/// input elements, the initial arena, the root slot and the threshold alone,
/// so rebuilding from identical input in identical order yields a
/// node-for-node identical tree.
pub proof fn lemma_build_deterministic<D>(
    es_a: Seq<Elem<D>>,
    ns_a: Seq<BVHNode>,
    es_b: Seq<Elem<D>>,
    ns_b: Seq<BVHNode>,
    idx: int,
    start: int,
    end: int,
    lt: int,
)
    requires
        es_a == es_b,
        ns_a == ns_b,
    ensures
        build_rec(es_a, ns_a, idx, start, end, lt) == build_rec(es_b, ns_b, idx, start, end, lt),
{
}

/// The capability a collection must offer to be built into a BVH: per-element
/// bounds and centroid, in-place swap (the builder's only mutation of the
/// elements, so sibling subtrees end up contiguous in the original array),
/// and access to the append-only node arena.  The ghost views `elems` and
/// `arena` are what all contracts speak about; `wf` is the implementation's
/// own invariant.
pub trait BVH: Sized {
    /// Payload moved in lockstep with each element's box.
    type Data;

    /// Ghost view of the element collection.
    spec fn elems(&self) -> Seq<Elem<Self::Data>>;

    /// Ghost view of the node arena.
    spec fn arena(&self) -> Seq<BVHNode>;

    /// The implementation's own invariant.
    spec fn wf(&self) -> bool;

    /// Number of elements.
    fn num_elems(&self) -> (n: usize)
        requires
            self.wf(),
        ensures
            n == self.elems().len(),
    ;

    /// Bounding box of element `elem`.
    fn elem_bounds(&self, elem: usize) -> (r: AABB)
        requires
            self.wf(),
            elem < self.elems().len(),
        ensures
            r == self.elems()[elem as int].bounds,
    ;

    /// Centroid of element `elem`.
    fn elem_centroid(&self, elem: usize) -> (r: Vec3I)
        requires
            self.wf(),
            elem < self.elems().len(),
        ensures
            r == self.elems()[elem as int].centroid,
    ;

    /// Exchanges elements `elem` and `elem2`, together with every parallel
    /// array the implementation keeps.
    fn elem_swap(&mut self, elem: usize, elem2: usize)
        requires
            old(self).wf(),
            elem < old(self).elems().len(),
            elem2 < old(self).elems().len(),
        ensures
            final(self).wf(),
            final(self).elems() == swap_seq(old(self).elems(), elem as int, elem2 as int),
            final(self).arena() == old(self).arena(),
    ;

    /// Appends a node to the arena and returns its index.
    fn push_node(&mut self, node: BVHNode) -> (i: usize)
        requires
            old(self).wf(),
        ensures
            final(self).wf(),
            i == old(self).arena().len(),
            final(self).arena() == old(self).arena().push(node),
            final(self).elems() == old(self).elems(),
    ;

    /// Overwrites the node at arena index `idx`.
    fn set_node(&mut self, idx: usize, node: BVHNode)
        requires
            old(self).wf(),
            idx < old(self).arena().len(),
        ensures
            final(self).wf(),
            final(self).arena() == old(self).arena().update(idx as int, node),
            final(self).elems() == old(self).elems(),
    ;

    /// Reads the node at arena index `idx`.
    fn node(&self, idx: usize) -> (r: BVHNode)
        requires
            self.wf(),
            idx < self.arena().len(),
        ensures
            r == self.arena()[idx as int],
    ;

    /// Bounds of the node at arena index `idx`.
    fn node_bounds(&self, idx: usize) -> (r: AABB)
        requires
            self.wf(),
            idx < self.arena().len(),
        ensures
            r == self.arena()[idx as int].bounds,
    ;
}

/// Coordinate of `v` on axis 0, 1 or 2.
pub fn axis_coord(v: Vec3I, axis: usize) -> (r: i32)
    requires
        axis < 3,
    ensures
        r as int == axis_of(v, axis as int),
{
    if axis == 0 {
        v.x
    } else if axis == 1 {
        v.y
    } else {
        v.z
    }
}

/// The axis of greatest extent of `b` (x preferred over y over z on ties).
pub fn largest_axis(b: AABB) -> (axis: usize)
    ensures
        axis < 3,
        axis as int == spec_largest_axis(b),
{
    let ex: i64 = b.ub.x as i64 - b.lb.x as i64;
    let ey: i64 = b.ub.y as i64 - b.lb.y as i64;
    let ez: i64 = b.ub.z as i64 - b.lb.z as i64;
    if ex >= ey && ex >= ez {
        0
    } else if ey >= ez {
        1
    } else {
        2
    }
}

/// The placeholder written into a freshly reserved arena slot.
fn make_placeholder() -> (r: BVHNode)
    ensures
        r == placeholder_node(),
{
    BVHNode {
        is_leaf: true,
        bounds: AABB::empty(),
        left: 0,
        right: 0,
        start: 0,
        end: 0,
    }
}

/// Builds the subtree for `[start, end)` into arena slot `node_idx`,
/// producing exactly the arena and element order that [`build_rec`]
/// specifies.
fn build_range<T: BVH>(bvh: &mut T, node_idx: usize, start: usize, end: usize, leaf_threshold: usize)
    requires
        old(bvh).wf(),
        all_valid(old(bvh).elems()),
        start < end,
        end <= old(bvh).elems().len(),
        node_idx < old(bvh).arena().len(),
        1 <= leaf_threshold,
    ensures
        final(bvh).wf(),
        ({
            let r = build_rec(
                old(bvh).elems(),
                old(bvh).arena(),
                node_idx as int,
                start as int,
                end as int,
                leaf_threshold as int,
            );
            final(bvh).arena() == r.0 && final(bvh).elems() == r.1
        }),
    decreases end - start,
{
    let ghost es0 = bvh.elems();
    let ghost ns0 = bvh.arena();

    // Fold the bounds of the whole range, starting from the empty box.
    let mut b = AABB::empty();
    proof {
        assert(b == range_bounds(es0, start as int, start as int));
    }
    let mut i: usize = start;
    while i < end
        invariant
            bvh.wf(),
            bvh.elems() == es0,
            bvh.arena() == ns0,
            start <= i <= end,
            end <= es0.len(),
            b == range_bounds(es0, start as int, i as int),
        decreases end - i,
    {
        let eb = bvh.elem_bounds(i);
        b = b.union(eb);
        i = i + 1;
    }

    if end - start <= leaf_threshold {
        let node = BVHNode {
            is_leaf: true,
            bounds: b,
            left: 0,
            right: 0,
            start,
            end,
        };
        proof {
            assert(node == leaf_node(b, start as int, end as int));
        }
        bvh.set_node(node_idx, node);
        return ;
    }

    // Split axis and midpoint of the node's bounds.
    proof {
        lemma_range_bounds_valid(es0, start as int, end as int);
    }
    let axis = largest_axis(b);
    let mp = b.center();
    let m = axis_coord(mp, axis);

    // Single-pass threshold partition: everything whose centroid coordinate
    // on the split axis is at most the (floored) midpoint moves before the
    // rest.
    let mut mid: usize = start;
    let mut j: usize = start;
    while j < end
        invariant
            bvh.wf(),
            bvh.arena() == ns0,
            bvh.elems().len() == es0.len(),
            end <= es0.len(),
            start <= mid <= j <= end,
            all_valid(bvh.elems()),
            axis < 3,
            m as int == axis_of(b.spec_center(), axis as int),
            part_rec(
                bvh.elems(),
                axis as int,
                m as int,
                j as int,
                end as int,
                mid as int,
            ) == part_rec(es0, axis as int, m as int, start as int, end as int, start as int),
        decreases end - j,
    {
        let c = bvh.elem_centroid(j);
        let cv = axis_coord(c, axis);
        if cv <= m {
            bvh.elem_swap(j, mid);
            mid = mid + 1;
        }
        j = j + 1;
    }
    let ghost es1 = bvh.elems();
    let ghost mid0 = mid as int;
    proof {
        assert(part_rec(es1, axis as int, m as int, end as int, end as int, mid as int) == (
            es1,
            mid as int,
        ));
    }

    // Degenerate-partition guard: fall back to the middle index so both
    // children are non-empty.
    if mid == start || mid == end {
        mid = start + (end - start) / 2;
    }
    proof {
        assert(start < mid < end);
    }

    // Reserve the two child slots, write the internal node, recurse.
    let l = bvh.push_node(make_placeholder());
    let r = bvh.push_node(make_placeholder());
    let node = BVHNode {
        is_leaf: false,
        bounds: b,
        left: l,
        right: r,
        start,
        end,
    };
    proof {
        assert(node == internal_node(b, l as int, r as int, start as int, end as int));
    }
    bvh.set_node(node_idx, node);
    let ghost ns1 = bvh.arena();
    proof {
        assert(ns1 == ns0.push(placeholder_node()).push(placeholder_node()).update(
            node_idx as int,
            internal_node(b, ns0.len() as int, ns0.len() as int + 1, start as int, end as int),
        ));
    }

    build_range(bvh, l, start, mid, leaf_threshold);
    proof {
        lemma_build_rec_props(es1, ns1, l as int, start as int, mid as int, leaf_threshold as int);
    }
    build_range(bvh, r, mid, end, leaf_threshold);
    proof {
        let spec_result = build_rec(
            es0,
            ns0,
            node_idx as int,
            start as int,
            end as int,
            leaf_threshold as int,
        );
        assert(bvh.arena() == spec_result.0 && bvh.elems() == spec_result.1);
    }
}

/// Runs the builder over the full element range `[0, n)`, `n >= 1`, with the
/// arena holding the single root placeholder at index 0.  The resulting arena
/// and element order are exactly those of [`build_rec`], so two builds from
/// identical input agree node for node; the elements are a permutation of the
/// input and nothing but their order changes.
pub fn initialize<T: BVH>(bvh: &mut T, leaf_threshold: usize)
    requires
        old(bvh).wf(),
        all_valid(old(bvh).elems()),
        1 <= old(bvh).elems().len(),
        old(bvh).elems().len() <= (usize::MAX as int - 1) / 2,
        old(bvh).arena().len() == 1,
        1 <= leaf_threshold,
    ensures
        final(bvh).wf(),
        ({
            let r = build_rec(
                old(bvh).elems(),
                old(bvh).arena(),
                0,
                0,
                old(bvh).elems().len() as int,
                leaf_threshold as int,
            );
            final(bvh).arena() == r.0 && final(bvh).elems() == r.1
        }),
        final(bvh).elems().len() == old(bvh).elems().len(),
        final(bvh).elems().to_multiset() == old(bvh).elems().to_multiset(),
        all_valid(final(bvh).elems()),
        1 <= final(bvh).arena().len(),
        wf_tree(
            final(bvh).arena(),
            final(bvh).elems(),
            0,
            0,
            old(bvh).elems().len() as int,
            1,
            final(bvh).arena().len() as int,
        ),
        forall|k: int|
            0 <= k < final(bvh).arena().len() ==> node_ok_in(
                final(bvh).arena(),
                final(bvh).elems(),
                k,
                0,
                old(bvh).elems().len() as int,
                1,
                final(bvh).arena().len() as int,
            ),
{
    let n = bvh.num_elems();
    build_range(bvh, 0, 0, n, leaf_threshold);
    proof {
        lemma_build_rec_props(
            old(bvh).elems(),
            old(bvh).arena(),
            0,
            0,
            old(bvh).elems().len() as int,
            leaf_threshold as int,
        );
        lemma_build_rec_wf(
            old(bvh).elems(),
            old(bvh).arena(),
            0,
            0,
            old(bvh).elems().len() as int,
            leaf_threshold as int,
        );
    }
}

} // verus!
