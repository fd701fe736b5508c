//! Tests for hierarchy construction and traversal.

use bvh::aabb::AABB;
use bvh::bounding_hierarchy::{BHShape, BoxShape, BoundingHierarchy};
use bvh::bvh::{BVH, BVHNode};
use bvh::ray::{Ray, ray_intersects_aabb};
use bvh::vector::{MAX_COORD, Vec3};

fn unit_box_at(x: i64, y: i64, z: i64) -> BoxShape {
    BoxShape::new(AABB::with_bounds(Vec3::new(x - 1, y - 1, z - 1), Vec3::new(x + 1, y + 1, z + 1)))
}

/// Traversal must return every shape whose own bounds the ray meets, and
/// nothing but shapes from leaves the descent reached; with one shape per
/// leaf that is exactly the set of directly hit boxes.
fn expected_hits(ray: &Ray, shapes: &Vec<BoxShape>) -> Vec<usize> {
    let mut expected = Vec::new();
    for (j, s) in shapes.iter().enumerate() {
        if ray_intersects_aabb(ray, &s.aabb) {
            expected.push(j);
        }
    }
    expected
}

fn sorted(mut v: Vec<usize>) -> Vec<usize> {
    v.sort_unstable();
    v
}

/// Build/traverse round trip over boxes on the space diagonal: a ray along
/// the x axis from the origin passes through exactly the boxes a direct
/// box-by-box test reports.
#[test]
fn test_build_traverse_round_trip() {
    let n: i64 = 20;
    let mut shapes: Vec<BoxShape> = (0..n).map(|i| unit_box_at(2 * i, 2 * i, 2 * i)).collect();
    let bvh = BVH::build(&mut shapes);

    let ray = Ray::new(Vec3::new(0, 0, 0), Vec3::new(1, 0, 0));
    let hits = bvh.traverse(&ray, &shapes);
    let expected = expected_hits(&ray, &shapes);
    assert_eq!(sorted(hits), expected);
    // Only the box at the origin straddles the x axis.
    assert_eq!(expected, vec![0]);
}

/// The same round trip with boxes in a row, where rays cross many of them.
#[test]
fn test_round_trip_row_of_boxes() {
    let n: i64 = 10;
    let mut shapes: Vec<BoxShape> = (0..n).map(|i| unit_box_at(2 * i, 0, 0)).collect();
    let bvh = BVH::build(&mut shapes);

    let rays = [
        Ray::new(Vec3::new(-5, 0, 0), Vec3::new(1, 0, 0)),
        Ray::new(Vec3::new(5, 0, 0), Vec3::new(1, 0, 0)),
        Ray::new(Vec3::new(5, 0, 0), Vec3::new(-1, 0, 0)),
        Ray::new(Vec3::new(-5, 2, 0), Vec3::new(1, 0, 0)),
        Ray::new(Vec3::new(0, -30, 0), Vec3::new(1, 10, 0)),
    ];
    for ray in rays.iter() {
        let hits = bvh.traverse(ray, &shapes);
        let expected = expected_hits(ray, &shapes);
        assert_eq!(sorted(hits), expected);
    }
}

/// Every shape index appears in exactly one leaf, exactly once.
#[test]
fn test_every_shape_reachable() {
    let mut shapes: Vec<BoxShape> = (0..33i64)
        .map(|i| unit_box_at((i * 7) % 23, (i * 3) % 11, i % 5))
        .collect();
    let n = shapes.len();
    let bvh = BVH::build(&mut shapes);

    let mut seen = vec![0usize; n];
    for node in bvh.nodes.iter() {
        if let BVHNode::Leaf { shape_indices, .. } = node {
            for &j in shape_indices.iter() {
                assert!(j < n);
                seen[j] += 1;
            }
        }
    }
    assert!(seen.iter().all(|&c| c == 1));
}

/// Every inner node stores exactly the join of its children's boxes, and
/// every leaf exactly the joint box of its shapes.
#[test]
fn test_node_aabb_soundness() {
    let mut shapes: Vec<BoxShape> = (0..25i64)
        .map(|i| unit_box_at((i * 5) % 17, (i * 11) % 13, (i * 2) % 7))
        .collect();
    let bvh = BVH::build(&mut shapes);

    let node_box = |k: usize| -> AABB {
        match &bvh.nodes[k] {
            BVHNode::Leaf { aabb, .. } => *aabb,
            BVHNode::Node { aabb, .. } => *aabb,
        }
    };
    for node in bvh.nodes.iter() {
        match node {
            BVHNode::Leaf { aabb, shape_indices } => {
                assert!(!shape_indices.is_empty());
                let mut joint = AABB::empty();
                for &j in shape_indices.iter() {
                    joint.join_mut(&shapes[j].aabb);
                }
                assert_eq!(joint.min, aabb.min);
                assert_eq!(joint.max, aabb.max);
            }
            BVHNode::Node { aabb, child_l, child_r } => {
                let joined = node_box(*child_l).join(&node_box(*child_r));
                assert_eq!(joined.min, aabb.min);
                assert_eq!(joined.max, aabb.max);
            }
        }
    }
}

/// After a build, each shape's stored node index names the leaf owning it.
#[test]
fn test_shapes_stamped_with_owning_leaf() {
    let mut shapes: Vec<BoxShape> = (0..16i64).map(|i| unit_box_at(3 * i, -i, 2 * i)).collect();
    let bvh = BVH::build(&mut shapes);

    for (j, s) in shapes.iter().enumerate() {
        let owner = s.bh_node_index();
        match &bvh.nodes[owner] {
            BVHNode::Leaf { shape_indices, .. } => {
                assert!(shape_indices.contains(&j));
            }
            BVHNode::Node { .. } => panic!("a shape's owner must be a leaf"),
        }
    }
}

/// No ray that truly crosses a shape's box may be pruned away.
#[test]
fn test_traversal_conservative() {
    let mut shapes: Vec<BoxShape> = Vec::new();
    for x in 0..5i64 {
        for y in 0..5i64 {
            shapes.push(unit_box_at(4 * x, 4 * y, 0));
        }
    }
    let bvh = BVH::build(&mut shapes);

    let rays = [
        Ray::new(Vec3::new(-3, 0, 0), Vec3::new(1, 0, 0)),
        Ray::new(Vec3::new(-3, -3, 0), Vec3::new(2, 2, 0)),
        Ray::new(Vec3::new(8, 20, 0), Vec3::new(0, -1, 0)),
        Ray::new(Vec3::new(0, 0, 5), Vec3::new(1, 1, -1)),
        Ray::new(Vec3::new(30, 30, 30), Vec3::new(-1, -1, -1)),
    ];
    for ray in rays.iter() {
        let hits = bvh.traverse(ray, &shapes);
        for (j, s) in shapes.iter().enumerate() {
            if ray_intersects_aabb(ray, &s.aabb) {
                assert!(hits.contains(&j));
            }
        }
        // No duplicates and no stray indices.
        let s = sorted(hits);
        for w in s.windows(2) {
            assert!(w[0] < w[1]);
        }
        assert!(s.iter().all(|&j| j < shapes.len()));
    }
}

/// Building over zero shapes must not fail, and any traversal of the result
/// is empty.
#[test]
fn test_empty_input() {
    let mut shapes: Vec<BoxShape> = Vec::new();
    let bvh = BVH::build(&mut shapes);
    assert!(bvh.nodes.is_empty());
    let ray = Ray::new(Vec3::new(3, -2, 7), Vec3::new(1, 1, 1));
    let hits = bvh.traverse(&ray, &shapes);
    assert!(hits.is_empty());
}

/// Shapes with identical centers force the degenerate-partition fallback;
/// construction must still terminate and own each shape exactly once.
#[test]
fn test_coincident_shapes_fallback() {
    let mut shapes: Vec<BoxShape> = (0..9i64).map(|_| unit_box_at(5, 5, 5)).collect();
    let n = shapes.len();
    let bvh = BVH::build(&mut shapes);

    let mut seen = vec![0usize; n];
    for node in bvh.nodes.iter() {
        if let BVHNode::Leaf { shape_indices, .. } = node {
            for &j in shape_indices.iter() {
                seen[j] += 1;
            }
        }
    }
    assert!(seen.iter().all(|&c| c == 1));

    let through = Ray::new(Vec3::new(5, 5, -20), Vec3::new(0, 0, 1));
    let hits = bvh.traverse(&through, &shapes);
    assert_eq!(hits.len(), n);
}

/// A single shape builds a one-leaf hierarchy.
#[test]
fn test_single_shape() {
    let mut shapes = vec![unit_box_at(0, 0, 0)];
    let bvh = BVH::build(&mut shapes);
    assert_eq!(bvh.nodes.len(), 1);
    assert_eq!(shapes[0].bh_node_index(), 0);

    let hit = Ray::new(Vec3::new(-5, 0, 0), Vec3::new(1, 0, 0));
    assert_eq!(bvh.traverse(&hit, &shapes), vec![0]);
    let miss = Ray::new(Vec3::new(-5, 10, 0), Vec3::new(1, 0, 0));
    assert!(bvh.traverse(&miss, &shapes).is_empty());
}

/// A hierarchy spanning the whole coordinate range builds and answers rays.
#[test]
fn test_extreme_span_round_trip() {
    let mut shapes = vec![
        BoxShape::new(AABB::with_bounds(
            Vec3::new(-MAX_COORD, -1, -1),
            Vec3::new(-MAX_COORD + 2, 1, 1),
        )),
        BoxShape::new(AABB::with_bounds(Vec3::new(-1, -1, -1), Vec3::new(1, 1, 1))),
        BoxShape::new(AABB::with_bounds(
            Vec3::new(MAX_COORD - 2, -1, -1),
            Vec3::new(MAX_COORD, 1, 1),
        )),
    ];
    let bvh = BVH::build(&mut shapes);
    let ray = Ray::new(Vec3::new(-MAX_COORD, 0, 0), Vec3::new(MAX_COORD, 0, 0));
    let hits = bvh.traverse(&ray, &shapes);
    assert_eq!(sorted(hits), expected_hits(&ray, &shapes));
    assert_eq!(expected_hits(&ray, &shapes), vec![0, 1, 2]);
}

/// The hierarchy is usable through the `BoundingHierarchy` contract alone.
#[test]
fn test_bounding_hierarchy_contract() {
    fn build_and_query<H: BoundingHierarchy>(shapes: &mut Vec<BoxShape>, ray: &Ray) -> Vec<usize> {
        let h = H::build(shapes);
        h.traverse(ray, shapes)
    }

    let mut shapes: Vec<BoxShape> = (0..6i64).map(|i| unit_box_at(2 * i, 0, 0)).collect();
    let ray = Ray::new(Vec3::new(-4, 0, 0), Vec3::new(1, 0, 0));
    let hits = build_and_query::<BVH>(&mut shapes, &ray);
    assert_eq!(sorted(hits), vec![0, 1, 2, 3, 4, 5]);
}
