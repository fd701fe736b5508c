//! A bounding volume hierarchy (BVH) over axis-aligned bounding boxes.
//!
//! The library models geometry with integer coordinates: an [`aabb::AABB`] is a
//! pair of corner points whose components are `i64` values bounded by
//! [`vector::MAX_COORD`]. On top of the box algebra it provides a binary
//! hierarchy, [`bvh::BVH`], built with the surface-area heuristic and queried
//! with rays; construction and traversal are specified and verified down to
//! the exact set of candidate shapes a query returns.

pub mod aabb;
pub mod axis;
pub mod bounding_hierarchy;
pub mod bvh;
mod math;
pub mod ray;
pub mod utils;
pub mod vector;
