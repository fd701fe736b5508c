//! Tests for concatenation, buckets, and joint bounds.

use bvh::aabb::AABB;
use bvh::bounding_hierarchy::BoxShape;
use bvh::utils::{Bucket, concatenate_vectors, joint_aabb_of_shapes};
use bvh::vector::Vec3;

/// Test if concatenating no `Vec`s yields an empty `Vec`.
#[test]
fn test_concatenate_empty() {
    let mut vectors: Vec<Vec<usize>> = vec![];
    let expected = vec![];
    assert_eq!(concatenate_vectors(&mut vectors), expected);
    let expected_remainder: Vec<Vec<usize>> = vec![];
    assert_eq!(vectors, expected_remainder);
}

/// Test if concatenating some `Vec`s yields the concatenation of the vectors.
#[test]
fn test_concatenate_vectors() {
    let mut vectors = vec![vec![1, 2, 3], vec![], vec![4, 5, 6], vec![7, 8], vec![9]];
    let result = concatenate_vectors(&mut vectors);
    let expected = vec![1, 2, 3, 4, 5, 6, 7, 8, 9];
    assert_eq!(result, expected);
    assert_eq!(vectors, vec![vec![], vec![], vec![], vec![], vec![]]);
}

#[test]
fn test_bucket_empty_is_identity() {
    let empty = Bucket::empty();
    assert_eq!(empty.size, 0);
    assert!(empty.aabb.is_none());

    let mut filled = Bucket::empty();
    let b = AABB::with_bounds(Vec3::new(0, 0, 0), Vec3::new(2, 2, 2));
    filled.add_aabb(&b);

    let joined = Bucket::join_bucket(empty, &filled);
    assert_eq!(joined.size, 1);
    let jb = joined.aabb.unwrap();
    assert_eq!(jb.min, Vec3::new(0, 0, 0));
    assert_eq!(jb.max, Vec3::new(2, 2, 2));
}

#[test]
fn test_bucket_add_and_join() {
    let mut a = Bucket::empty();
    a.add_aabb(&AABB::with_bounds(Vec3::new(-1, 0, 0), Vec3::new(1, 1, 1)));
    a.add_aabb(&AABB::with_bounds(Vec3::new(0, -2, 0), Vec3::new(1, 1, 3)));
    assert_eq!(a.size, 2);
    let ab = a.aabb.unwrap();
    assert_eq!(ab.min, Vec3::new(-1, -2, 0));
    assert_eq!(ab.max, Vec3::new(1, 1, 3));

    let mut b = Bucket::empty();
    b.add_aabb(&AABB::with_bounds(Vec3::new(5, 5, 5), Vec3::new(6, 6, 6)));
    let joined = Bucket::join_bucket(a, &b);
    assert_eq!(joined.size, 3);
    let jb = joined.aabb.unwrap();
    assert_eq!(jb.min, Vec3::new(-1, -2, 0));
    assert_eq!(jb.max, Vec3::new(6, 6, 6));
}

#[test]
fn test_bucket_join_associative() {
    let mut a = Bucket::empty();
    a.add_aabb(&AABB::with_bounds(Vec3::new(0, 0, 0), Vec3::new(1, 1, 1)));
    let mut b = Bucket::empty();
    b.add_aabb(&AABB::with_bounds(Vec3::new(4, -2, 0), Vec3::new(5, -1, 1)));
    let mut c = Bucket::empty();
    c.add_aabb(&AABB::with_bounds(Vec3::new(-3, 7, 2), Vec3::new(0, 9, 3)));

    let left = Bucket::join_bucket(Bucket::join_bucket(a, &b), &c);
    let right = Bucket::join_bucket(a, &Bucket::join_bucket(b, &c));
    assert_eq!(left.size, right.size);
    assert_eq!(left.aabb.unwrap(), right.aabb.unwrap());
}

#[test]
fn test_joint_aabb_of_shapes() {
    let shapes = vec![
        BoxShape::new(AABB::with_bounds(Vec3::new(0, 0, 0), Vec3::new(1, 1, 1))),
        BoxShape::new(AABB::with_bounds(Vec3::new(-5, 2, 0), Vec3::new(-4, 3, 1))),
        BoxShape::new(AABB::with_bounds(Vec3::new(10, -1, 7), Vec3::new(12, 0, 9))),
    ];
    let indices = vec![0, 2];
    let joint = joint_aabb_of_shapes(&indices, &shapes);
    assert_eq!(joint.min, Vec3::new(0, -1, 0));
    assert_eq!(joint.max, Vec3::new(12, 1, 9));

    let all = vec![0, 1, 2];
    let joint_all = joint_aabb_of_shapes(&all, &shapes);
    assert_eq!(joint_all.min, Vec3::new(-5, -1, 0));
    assert_eq!(joint_all.max, Vec3::new(12, 3, 9));
}
