//! Points and directions with integer coordinates.

use vstd::prelude::*;

verus! {

/// Bound on the coordinates the geometric operations accept: every coordinate
/// of a point, a ray, or a well-formed box must lie in
/// `[-MAX_COORD, MAX_COORD]`. The bound keeps all derived quantities (sizes,
/// surface areas, volumes, traversal arithmetic) well inside `i128`.
pub const MAX_COORD: i64 = 0x100_0000_0000;

/// A point or direction in three-dimensional space.
#[derive(Clone, Copy, PartialEq, Eq, Structural, Debug)]
pub struct Vec3 {
    /// The x coordinate.
    pub x: i64,
    /// The y coordinate.
    pub y: i64,
    /// The z coordinate.
    pub z: i64,
}

impl Vec3 {
    /// All three coordinates lie in `[-MAX_COORD, MAX_COORD]`.
    pub open spec fn in_range_spec(self) -> bool {
        &&& -MAX_COORD <= self.x <= MAX_COORD
        &&& -MAX_COORD <= self.y <= MAX_COORD
        &&& -MAX_COORD <= self.z <= MAX_COORD
    }

    /// Builds the point with the given coordinates.
    pub fn new(x: i64, y: i64, z: i64) -> (v: Vec3)
        ensures
            v == (Vec3 { x, y, z }),
    {
        Vec3 { x, y, z }
    }

    /// Reports whether every coordinate lies in `[-MAX_COORD, MAX_COORD]`.
    pub fn in_range(&self) -> (r: bool)
        ensures
            r == self.in_range_spec(),
    {
        -MAX_COORD <= self.x && self.x <= MAX_COORD && -MAX_COORD <= self.y && self.y <= MAX_COORD
            && -MAX_COORD <= self.z && self.z <= MAX_COORD
    }
}

} // verus!
