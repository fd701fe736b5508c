//! Tests for the ray/box intersection primitive.

use bvh::aabb::AABB;
use bvh::ray::{Ray, ray_intersects_aabb};
use bvh::vector::Vec3;

fn unit_box_at(x: i64, y: i64, z: i64) -> AABB {
    AABB::with_bounds(Vec3::new(x - 1, y - 1, z - 1), Vec3::new(x + 1, y + 1, z + 1))
}

#[test]
fn test_axis_ray_hits_and_misses() {
    let b = unit_box_at(10, 0, 0);
    let toward = Ray::new(Vec3::new(0, 0, 0), Vec3::new(1, 0, 0));
    assert!(ray_intersects_aabb(&toward, &b));

    let away = Ray::new(Vec3::new(0, 0, 0), Vec3::new(-1, 0, 0));
    assert!(!ray_intersects_aabb(&away, &b));

    let offset = Ray::new(Vec3::new(0, 5, 0), Vec3::new(1, 0, 0));
    assert!(!ray_intersects_aabb(&offset, &b));

    let grazing = Ray::new(Vec3::new(0, 1, 1), Vec3::new(1, 0, 0));
    assert!(ray_intersects_aabb(&grazing, &b));
}

#[test]
fn test_diagonal_ray() {
    let b = unit_box_at(10, 10, 10);
    let diagonal = Ray::new(Vec3::new(0, 0, 0), Vec3::new(1, 1, 1));
    assert!(ray_intersects_aabb(&diagonal, &b));

    let skewed = Ray::new(Vec3::new(0, 0, 0), Vec3::new(1, 1, 3));
    assert!(!ray_intersects_aabb(&skewed, &b));

    // An unnormalized direction reaches the same points.
    let scaled = Ray::new(Vec3::new(0, 0, 0), Vec3::new(7, 7, 7));
    assert!(ray_intersects_aabb(&scaled, &b));
}

#[test]
fn test_ray_from_inside_and_degenerate_direction() {
    let b = unit_box_at(0, 0, 0);
    let inside = Ray::new(Vec3::new(0, 0, 0), Vec3::new(0, 0, 1));
    assert!(ray_intersects_aabb(&inside, &b));

    // A zero direction degenerates to a point test.
    let point_in = Ray::new(Vec3::new(1, 1, 1), Vec3::new(0, 0, 0));
    assert!(ray_intersects_aabb(&point_in, &b));
    let point_out = Ray::new(Vec3::new(2, 0, 0), Vec3::new(0, 0, 0));
    assert!(!ray_intersects_aabb(&point_out, &b));
}

#[test]
fn test_negative_direction_and_boundaries() {
    let b = AABB::with_bounds(Vec3::new(-20, -20, -20), Vec3::new(-10, -10, -10));
    let toward = Ray::new(Vec3::new(0, -15, -15), Vec3::new(-2, 0, 0));
    assert!(ray_intersects_aabb(&toward, &b));

    // Starting exactly on a face counts as a hit.
    let on_face = Ray::new(Vec3::new(-10, -15, -15), Vec3::new(1, 0, 0));
    assert!(ray_intersects_aabb(&on_face, &b));

    // A reversed (empty) box is never hit.
    let inverted = AABB::with_bounds(Vec3::new(5, 5, 5), Vec3::new(-5, -5, -5));
    let through = Ray::new(Vec3::new(-9, 0, 0), Vec3::new(1, 0, 0));
    assert!(!ray_intersects_aabb(&through, &inverted));
}
