//! Axis-aligned bounding boxes on a signed 32-bit integer lattice.
//!
//! Geometry enters this crate quantized: every coordinate is an `i32` step on
//! a fixed world grid, so union, extension and centroid computations are exact
//! and the box algebra below holds without rounding caveats.  The empty box is
//! the identity of `union`: its lower corner sits at the lattice maximum and
//! its upper corner at the lattice minimum, so the first real box unioned into
//! it is returned unchanged.

use vstd::prelude::*;

verus! {

/// Minimum of two mathematical integers.
pub open spec fn min_int(a: int, b: int) -> int {
    if a <= b {
        a
    } else {
        b
    }
}

/// Maximum of two mathematical integers.
pub open spec fn max_int(a: int, b: int) -> int {
    if a >= b {
        a
    } else {
        b
    }
}

/// Midpoint of `lo` and `hi`, rounded toward `lo`; for `lo <= hi` this is
/// `(lo + hi) / 2` with floor division, and it always lies in `[lo, hi]`.
pub open spec fn mid_int(lo: int, hi: int) -> int {
    lo + (hi - lo) / 2
}

/// A point (or centroid) on the quantized world grid.
#[derive(Clone, Copy, PartialEq, Eq, Structural, Debug)]
pub struct Vec3I {
    pub x: i32,
    pub y: i32,
    pub z: i32,
}

/// Coordinate of `v` on axis 0, 1 or 2 (x, y or z).
pub open spec fn axis_of(v: Vec3I, axis: int) -> int {
    if axis == 0 {
        v.x as int
    } else if axis == 1 {
        v.y as int
    } else {
        v.z as int
    }
}

/// An axis-aligned bounding box: lower bound `lb`, upper bound `ub`.
#[derive(Clone, Copy, PartialEq, Eq, Structural, Debug)]
pub struct AABB {
    pub lb: Vec3I,
    pub ub: Vec3I,
}

impl AABB {
    /// A box is valid when its corners are ordered on every axis.
    pub open spec fn valid(self) -> bool {
        &&& self.lb.x <= self.ub.x
        &&& self.lb.y <= self.ub.y
        &&& self.lb.z <= self.ub.z
    }

    /// The identity box: lower corner at the lattice maximum, upper corner at
    /// the lattice minimum, so that `union(empty, x) == x` for every `x`.
    pub open spec fn spec_empty() -> AABB {
        AABB {
            lb: Vec3I { x: i32::MAX, y: i32::MAX, z: i32::MAX },
            ub: Vec3I { x: i32::MIN, y: i32::MIN, z: i32::MIN },
        }
    }

    /// Elementwise min of lower corners and max of upper corners.
    pub open spec fn spec_union(a: AABB, b: AABB) -> AABB {
        AABB {
            lb: Vec3I {
                x: min_int(a.lb.x as int, b.lb.x as int) as i32,
                y: min_int(a.lb.y as int, b.lb.y as int) as i32,
                z: min_int(a.lb.z as int, b.lb.z as int) as i32,
            },
            ub: Vec3I {
                x: max_int(a.ub.x as int, b.ub.x as int) as i32,
                y: max_int(a.ub.y as int, b.ub.y as int) as i32,
                z: max_int(a.ub.z as int, b.ub.z as int) as i32,
            },
        }
    }

    /// Centroid of a valid box: the per-axis midpoint, rounded toward the
    /// lower corner.
    pub open spec fn spec_center(self) -> Vec3I {
        Vec3I {
            x: mid_int(self.lb.x as int, self.ub.x as int) as i32,
            y: mid_int(self.lb.y as int, self.ub.y as int) as i32,
            z: mid_int(self.lb.z as int, self.ub.z as int) as i32,
        }
    }

    /// The identity box for `union`.
    pub fn empty() -> (r: AABB)
        ensures
            r == AABB::spec_empty(),
    {
        AABB {
            lb: Vec3I { x: i32::MAX, y: i32::MAX, z: i32::MAX },
            ub: Vec3I { x: i32::MIN, y: i32::MIN, z: i32::MIN },
        }
    }

    /// Smallest box containing both `self` and `o`.
    pub fn union(self, o: AABB) -> (r: AABB)
        ensures
            r == AABB::spec_union(self, o),
    {
        AABB {
            lb: Vec3I {
                x: imin(self.lb.x, o.lb.x),
                y: imin(self.lb.y, o.lb.y),
                z: imin(self.lb.z, o.lb.z),
            },
            ub: Vec3I {
                x: imax(self.ub.x, o.ub.x),
                y: imax(self.ub.y, o.ub.y),
                z: imax(self.ub.z, o.ub.z),
            },
        }
    }

    /// The degenerate box holding exactly the point `p`.
    pub fn from_point(p: Vec3I) -> (r: AABB)
        ensures
            r == (AABB { lb: p, ub: p }),
            r.valid(),
    {
        AABB { lb: p, ub: p }
    }

    /// Grows `self` to also contain the point `p`.
    pub fn extend(self, p: Vec3I) -> (r: AABB)
        ensures
            r == AABB::spec_union(self, AABB { lb: p, ub: p }),
    {
        self.union(AABB { lb: p, ub: p })
    }

    /// The valid box spanned by two corners in either order: the elementwise
    /// min becomes the lower bound and the elementwise max the upper, so a
    /// box mapped through a reflecting or degenerate transform comes out
    /// ordered instead of inverted.
    pub fn normalized(a: Vec3I, b: Vec3I) -> (r: AABB)
        ensures
            r == AABB::spec_union(AABB { lb: a, ub: a }, AABB { lb: b, ub: b }),
            r.valid(),
    {
        AABB::from_point(a).extend(b)
    }

    /// Per-axis midpoint of a valid box.
    pub fn center(self) -> (r: Vec3I)
        requires
            self.valid(),
        ensures
            r == self.spec_center(),
            r.x as int == mid_int(self.lb.x as int, self.ub.x as int),
            r.y as int == mid_int(self.lb.y as int, self.ub.y as int),
            r.z as int == mid_int(self.lb.z as int, self.ub.z as int),
    {
        Vec3I {
            x: mid_i32(self.lb.x, self.ub.x),
            y: mid_i32(self.lb.y, self.ub.y),
            z: mid_i32(self.lb.z, self.ub.z),
        }
    }
}

/// Minimum of two lattice coordinates.
pub fn imin(a: i32, b: i32) -> (r: i32)
    ensures
        r as int == min_int(a as int, b as int),
{
    if a <= b {
        a
    } else {
        b
    }
}

/// Maximum of two lattice coordinates.
pub fn imax(a: i32, b: i32) -> (r: i32)
    ensures
        r as int == max_int(a as int, b as int),
{
    if a >= b {
        a
    } else {
        b
    }
}

/// Midpoint of `lo..=hi`, rounded toward `lo`; widens internally so the
/// subtraction cannot overflow.
pub fn mid_i32(lo: i32, hi: i32) -> (r: i32)
    requires
        lo <= hi,
    ensures
        r as int == mid_int(lo as int, hi as int),
{
    let d: u64 = (hi as i64 - lo as i64) as u64;
    let half: u64 = d / 2;
    proof {
        assert(lo as int <= lo as int + half <= hi as int);
    }
    (lo as i64 + half as i64) as i32
}

/// The empty box is the identity of `union`, on either side; in particular
/// repeated unions with the empty box leave a box unchanged.
pub proof fn lemma_union_empty(x: AABB)
    ensures
        AABB::spec_union(AABB::spec_empty(), x) == x,
        AABB::spec_union(x, AABB::spec_empty()) == x,
{
}

/// `union` is associative.
pub proof fn lemma_union_assoc(a: AABB, b: AABB, c: AABB)
    ensures
        AABB::spec_union(AABB::spec_union(a, b), c) == AABB::spec_union(a, AABB::spec_union(b, c)),
{
}

/// The union of two valid boxes is valid.
pub proof fn lemma_union_valid(a: AABB, b: AABB)
    requires
        a.valid(),
        b.valid(),
    ensures
        AABB::spec_union(a, b).valid(),
{
}

} // verus!
