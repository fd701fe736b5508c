//! Tests for the box algebra.

use bvh::aabb::{AABB, Bounded};
use bvh::axis::Axis;
use bvh::vector::{MAX_COORD, Vec3};

/// The empty box is the identity of `join`, checked with tolerant equality.
#[test]
fn test_empty_join_identity() {
    let boxes = [
        AABB::with_bounds(Vec3::new(-3, 4, -5), Vec3::new(10, 20, 30)),
        AABB::with_bounds(Vec3::new(0, 0, 0), Vec3::new(0, 0, 0)),
        AABB::with_bounds(Vec3::new(-1000, -1000, -1000), Vec3::new(-999, -999, -999)),
    ];
    for b in boxes.iter() {
        let joined = AABB::empty().join(b);
        assert!(joined.relative_eq(b, 0));
        assert!(joined.relative_eq(b, 3));
        let joined_rev = b.join(&AABB::empty());
        assert!(joined_rev.relative_eq(b, 0));
    }
}

/// A box grown from the empty box by two points contains its center.
#[test]
fn test_contains_center() {
    let pairs = [
        (Vec3::new(0, 0, 0), Vec3::new(10, 10, 10)),
        (Vec3::new(-7, 3, 2), Vec3::new(5, -9, 2)),
        (Vec3::new(1, 1, 1), Vec3::new(1, 1, 1)),
    ];
    for (p, q) in pairs.iter() {
        let b = AABB::empty().grow(p).grow(q);
        assert!(!b.is_empty());
        assert!(b.contains(&b.center()));
    }
}

/// The join of two boxes contains every point either contains.
#[test]
fn test_union_superset() {
    let a = AABB::with_bounds(Vec3::new(-101, 0, 0), Vec3::new(-100, 1, 1));
    let b = AABB::with_bounds(Vec3::new(100, 0, 0), Vec3::new(101, 1, 1));
    let joint = a.join(&b);

    let inside_a = Vec3::new(-100, 0, 0);
    let inside_b = Vec3::new(100, 1, 1);
    let inside_joint_only = Vec3::new(0, 0, 0);

    assert!(a.contains(&inside_a));
    assert!(!b.contains(&inside_a));
    assert!(b.contains(&inside_b));
    assert!(!a.contains(&inside_b));

    assert!(joint.contains(&inside_a));
    assert!(joint.contains(&inside_b));
    assert!(joint.contains(&inside_joint_only));
}

/// Surface area and volume of non-empty boxes are non-negative; a cube of
/// edge `s` has surface area `6 * s * s` and volume `s * s * s`.
#[test]
fn test_surface_area_and_volume() {
    let b = AABB::with_bounds(Vec3::new(-4, 2, -9), Vec3::new(13, 2, 5));
    assert!(b.surface_area() >= 0);
    assert!(b.volume() >= 0);

    let cube = AABB::with_bounds(Vec3::new(41, 41, 41), Vec3::new(44, 44, 44));
    assert_eq!(cube.surface_area(), 6 * 3 * 3);
    assert_eq!(cube.volume(), 3 * 3 * 3);

    let flat = AABB::with_bounds(Vec3::new(0, 0, 0), Vec3::new(5, 5, 0));
    assert_eq!(flat.surface_area(), 2 * (5 * 5));
    assert_eq!(flat.volume(), 0);
}

/// A box with extents `(200, 0, 0)` reports the x axis as its largest.
#[test]
fn test_largest_axis_tie_break() {
    let b = AABB::with_bounds(Vec3::new(-100, 0, 0), Vec3::new(100, 0, 0));
    assert_eq!(b.largest_axis(), Axis::X);

    let tallest = AABB::with_bounds(Vec3::new(0, -5, 0), Vec3::new(1, 5, 2));
    assert_eq!(tallest.largest_axis(), Axis::Y);

    let deep = AABB::with_bounds(Vec3::new(0, 0, 0), Vec3::new(1, 2, 9));
    assert_eq!(deep.largest_axis(), Axis::Z);

    // Equal extents everywhere fall through to the z axis.
    let even = AABB::with_bounds(Vec3::new(0, 0, 0), Vec3::new(4, 4, 4));
    assert_eq!(even.largest_axis(), Axis::Z);
}

#[test]
fn test_empty_contains_nothing() {
    let empty = AABB::empty();
    assert!(empty.is_empty());
    for p in [Vec3::new(0, 0, 0), Vec3::new(-50, 3, 19), Vec3::new(1 << 30, 0, -7)].iter() {
        assert!(!empty.contains(p));
    }
    let default_box: AABB = Default::default();
    assert!(default_box.is_empty());
    assert!(!default_box.contains(&Vec3::new(1, 2, 3)));
}

#[test]
fn test_approx_contains_eps() {
    let b = AABB::with_bounds(Vec3::new(-10, -10, -10), Vec3::new(10, 10, 10));
    let barely_outside = Vec3::new(11, -11, 10);
    assert!(!b.contains(&barely_outside));
    assert!(b.approx_contains_eps(&barely_outside, 2));
    assert!(!b.approx_contains_eps(&barely_outside, 1));

    let far_outside = Vec3::new(40, 0, 0);
    assert!(!b.approx_contains_eps(&far_outside, 2));

    let inner = AABB::with_bounds(Vec3::new(-11, -9, -9), Vec3::new(9, 9, 11));
    assert!(b.approx_contains_aabb_eps(&inner, 2));
    assert!(!b.approx_contains_aabb_eps(&inner, 1));
}

#[test]
fn test_relative_eq() {
    let a = AABB::with_bounds(Vec3::new(0, 0, 0), Vec3::new(10, 10, 10));
    let b = AABB::with_bounds(Vec3::new(-1, 1, 0), Vec3::new(11, 10, 9));
    assert!(a.relative_eq(&b, 1));
    assert!(!a.relative_eq(&b, 0));
    assert!(a.relative_eq(&a, 0));
}

#[test]
fn test_join_mut_and_grow_mut() {
    let mut b = AABB::empty();
    b.grow_mut(&Vec3::new(1, 2, 3));
    assert!(b.contains(&Vec3::new(1, 2, 3)));
    assert!(!b.contains(&Vec3::new(0, 2, 3)));
    b.join_mut(&AABB::with_bounds(Vec3::new(-4, -4, -4), Vec3::new(0, 0, 0)));
    assert_eq!(b.min, Vec3::new(-4, -4, -4));
    assert_eq!(b.max, Vec3::new(1, 2, 3));

    let size = b.size();
    assert_eq!(size, Vec3::new(5, 6, 7));
}

#[test]
fn test_corner_addresses_bounds() {
    let b = AABB::with_bounds(Vec3::new(3, 4, 5), Vec3::new(123, 123, 123));
    assert_eq!(b.corner(0), b.min);
    assert_eq!(b.corner(1), b.max);
    assert_eq!(b.corner(7), b.max);
}

/// The algebra still gives exact answers on the largest boxes it accepts.
#[test]
fn test_extreme_coordinates() {
    let b = AABB::with_bounds(
        Vec3::new(-MAX_COORD, -MAX_COORD, -MAX_COORD),
        Vec3::new(MAX_COORD, MAX_COORD, MAX_COORD),
    );
    let s: i128 = 2 * MAX_COORD as i128;
    assert_eq!(b.surface_area(), 6 * s * s);
    assert_eq!(b.volume(), s * s * s);
    assert_eq!(b.center(), Vec3::new(0, 0, 0));
    assert!(b.contains(&Vec3::new(MAX_COORD, 0, -MAX_COORD)));
    assert_eq!(b.size(), Vec3::new(2 * MAX_COORD, 2 * MAX_COORD, 2 * MAX_COORD));
}

#[test]
fn test_bounded_impls() {
    let b = AABB::with_bounds(Vec3::new(3, 4, 5), Vec3::new(17, 18, 19));
    let bb = b.aabb();
    assert_eq!(bb.min, b.min);
    assert_eq!(bb.max, b.max);

    let p = Vec3::new(3, 4, 5);
    let pb = p.aabb();
    assert!(pb.contains(&p));
    assert_eq!(pb.min, p);
    assert_eq!(pb.max, p);

    let grown = AABB::empty().join_bounded(&p);
    assert!(grown.contains(&p));
}
