use tracer_core::aabb::{AABB, Vec3I};

fn v(x: i32, y: i32, z: i32) -> Vec3I {
    Vec3I { x, y, z }
}

fn boxed(lb: (i32, i32, i32), ub: (i32, i32, i32)) -> AABB {
    AABB { lb: v(lb.0, lb.1, lb.2), ub: v(ub.0, ub.1, ub.2) }
}

#[test]
fn union_empty_is_identity() {
    let cases = [
        boxed((0, 0, 0), (1, 1, 1)),
        boxed((-5, -7, 3), (2, 0, 9)),
        boxed((i32::MIN, 0, 0), (i32::MAX, 0, 0)),
        AABB::empty(),
    ];
    for x in cases {
        assert_eq!(AABB::empty().union(x), x);
        assert_eq!(x.union(AABB::empty()), x);
    }
}

#[test]
fn union_of_repeated_empties_stays_empty() {
    let mut acc = AABB::empty();
    for _ in 0..5 {
        acc = acc.union(AABB::empty());
    }
    assert_eq!(acc, AABB::empty());
    let x = boxed((1, 2, 3), (4, 5, 6));
    assert_eq!(acc.union(x), x);
}

#[test]
fn union_is_elementwise_min_max() {
    let a = boxed((0, 0, 0), (1, 1, 1));
    let b = boxed((5, 0, -2), (6, 1, 1));
    assert_eq!(a.union(b), boxed((0, 0, -2), (6, 1, 1)));
    assert_eq!(a.union(b), b.union(a));
}

#[test]
fn from_point_and_extend() {
    let p = v(3, -1, 7);
    let bp = AABB::from_point(p);
    assert_eq!(bp, AABB { lb: p, ub: p });
    let grown = bp.extend(v(0, 4, 7));
    assert_eq!(grown, boxed((0, -1, 7), (3, 4, 7)));
}

#[test]
fn center_rounds_toward_lower_corner() {
    assert_eq!(boxed((0, 0, 0), (11, 1, 1)).center(), v(5, 0, 0));
    assert_eq!(boxed((-3, -3, -3), (2, 2, 2)).center(), v(-1, -1, -1));
    assert_eq!(boxed((4, 4, 4), (4, 4, 4)).center(), v(4, 4, 4));
    assert_eq!(boxed((i32::MIN, 0, 0), (i32::MAX, 0, 0)).center(), v(-1, 0, 0));
}

#[test]
fn normalized_orders_swapped_corners() {
    let r = AABB::normalized(v(6, 1, 1), v(5, 0, 0));
    assert_eq!(r, boxed((5, 0, 0), (6, 1, 1)));
    let r = AABB::normalized(v(2, 2, 2), v(2, 2, 2));
    assert_eq!(r, boxed((2, 2, 2), (2, 2, 2)));
    let r = AABB::normalized(v(-1, 5, 0), v(1, -5, 0));
    assert_eq!(r, boxed((-1, -5, 0), (1, 5, 0)));
}
