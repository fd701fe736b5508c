//! Axis-aligned bounding boxes and their algebra.

use vstd::prelude::*;

use crate::axis::Axis;
use crate::math::lemma_mul_bounds;
use crate::vector::Vec3;

verus! {

/// An axis-aligned bounding box, stored as its two extreme corners.
///
/// A box is geometrically meaningful ("valid") when `min <= max` holds
/// componentwise; the canonical empty box inverts the bounds on purpose so
/// that it is the identity of [`AABB::join`].
#[derive(Clone, Copy, PartialEq, Eq, Structural, Debug)]
pub struct AABB {
    /// The corner with the smallest coordinates.
    pub min: Vec3,
    /// The corner with the largest coordinates.
    pub max: Vec3,
}

/// A thing that can report its geometric bounds as an [`AABB`].
pub trait Bounded {
    /// The bounds, as specifications see them. The executable [`Bounded::aabb`]
    /// must return exactly this value, so the bounds of a given object are
    /// deterministic.
    spec fn aabb_spec(&self) -> AABB;

    /// Returns the geometric bounds of this object.
    fn aabb(&self) -> (r: AABB)
        ensures
            r == self.aabb_spec(),
    ;
}

/// The smaller of two coordinates.
pub open spec fn coord_min(a: i64, b: i64) -> i64 {
    if a <= b {
        a
    } else {
        b
    }
}

/// The larger of two coordinates.
pub open spec fn coord_max(a: i64, b: i64) -> i64 {
    if a <= b {
        b
    } else {
        a
    }
}

/// `inner` lies entirely within `outer`, componentwise.
pub open spec fn box_le(inner: AABB, outer: AABB) -> bool {
    &&& outer.min.x <= inner.min.x && inner.max.x <= outer.max.x
    &&& outer.min.y <= inner.min.y && inner.max.y <= outer.max.y
    &&& outer.min.z <= inner.min.z && inner.max.z <= outer.max.z
}

impl AABB {
    /// The canonical empty box: lower bound above every point, upper bound
    /// below every point.
    pub open spec fn empty_spec() -> AABB {
        AABB {
            min: Vec3 { x: i64::MAX, y: i64::MAX, z: i64::MAX },
            max: Vec3 { x: i64::MIN, y: i64::MIN, z: i64::MIN },
        }
    }

    /// The bounds are inverted on at least one axis, so no point is contained.
    pub open spec fn is_empty_spec(self) -> bool {
        self.min.x > self.max.x || self.min.y > self.max.y || self.min.z > self.max.z
    }

    /// Both corners have coordinates in `[-MAX_COORD, MAX_COORD]`.
    pub open spec fn in_range(self) -> bool {
        self.min.in_range_spec() && self.max.in_range_spec()
    }

    /// A geometrically meaningful box: ordered corners, coordinates in range.
    pub open spec fn valid(self) -> bool {
        self.in_range() && !self.is_empty_spec()
    }

    /// The point `(x, y, z)` lies in `[min, max]`, componentwise, inclusive.
    pub open spec fn contains_coords(self, x: int, y: int, z: int) -> bool {
        &&& self.min.x <= x <= self.max.x
        &&& self.min.y <= y <= self.max.y
        &&& self.min.z <= z <= self.max.z
    }

    /// [`AABB::contains_coords`], on a point value.
    pub open spec fn contains_spec(self, p: Vec3) -> bool {
        self.contains_coords(p.x as int, p.y as int, p.z as int)
    }

    /// Every coordinate of `(x, y, z)` is within `eps` of being inside.
    pub open spec fn approx_contains_coords(self, x: int, y: int, z: int, eps: int) -> bool {
        &&& x - self.min.x > -eps && x - self.max.x < eps
        &&& y - self.min.y > -eps && y - self.max.y < eps
        &&& z - self.min.z > -eps && z - self.max.z < eps
    }

    /// The componentwise union: smallest box containing `self` and `other`.
    pub open spec fn join_spec(self, other: AABB) -> AABB {
        AABB {
            min: Vec3 {
                x: coord_min(self.min.x, other.min.x),
                y: coord_min(self.min.y, other.min.y),
                z: coord_min(self.min.z, other.min.z),
            },
            max: Vec3 {
                x: coord_max(self.max.x, other.max.x),
                y: coord_max(self.max.y, other.max.y),
                z: coord_max(self.max.z, other.max.z),
            },
        }
    }

    /// Union with the degenerate box holding only the point `p`.
    pub open spec fn grow_spec(self, p: Vec3) -> AABB {
        self.join_spec(AABB { min: p, max: p })
    }

    /// Extent along the x axis (negative on an empty box).
    pub open spec fn size_x(self) -> int {
        self.max.x - self.min.x
    }

    /// Extent along the y axis (negative on an empty box).
    pub open spec fn size_y(self) -> int {
        self.max.y - self.min.y
    }

    /// Extent along the z axis (negative on an empty box).
    pub open spec fn size_z(self) -> int {
        self.max.z - self.min.z
    }

    /// Extent along the given axis.
    pub open spec fn size_along(self, axis: Axis) -> int {
        match axis {
            Axis::X => self.size_x(),
            Axis::Y => self.size_y(),
            Axis::Z => self.size_z(),
        }
    }

    /// Midpoint of the x extent, rounded towards the lower bound.
    pub open spec fn center_x(self) -> int {
        self.min.x + (self.max.x - self.min.x) / 2
    }

    /// Midpoint of the y extent, rounded towards the lower bound.
    pub open spec fn center_y(self) -> int {
        self.min.y + (self.max.y - self.min.y) / 2
    }

    /// Midpoint of the z extent, rounded towards the lower bound.
    pub open spec fn center_z(self) -> int {
        self.min.z + (self.max.z - self.min.z) / 2
    }

    /// Midpoint of the extent along the given axis.
    pub open spec fn center_along(self, axis: Axis) -> int {
        match axis {
            Axis::X => self.center_x(),
            Axis::Y => self.center_y(),
            Axis::Z => self.center_z(),
        }
    }

    /// Total area of the six faces: `2 * (sx*sy + sx*sz + sy*sz)`.
    pub open spec fn surface_area_spec(self) -> int {
        2 * (self.size_x() * self.size_y() + self.size_x() * self.size_z() + self.size_y()
            * self.size_z())
    }

    /// Product of the three extents.
    pub open spec fn volume_spec(self) -> int {
        self.size_x() * self.size_y() * self.size_z()
    }

    /// The axis of maximum extent; x wins ties with y, y wins ties with z.
    pub open spec fn largest_axis_spec(self) -> Axis {
        if self.size_x() > self.size_y() && self.size_x() > self.size_z() {
            Axis::X
        } else if self.size_y() > self.size_z() {
            Axis::Y
        } else {
            Axis::Z
        }
    }

    /// Both corners of `self` and `other` agree within `eps`, componentwise.
    pub open spec fn relative_eq_spec(self, other: AABB, eps: i64) -> bool {
        &&& -eps <= self.min.x - other.min.x <= eps
        &&& -eps <= self.min.y - other.min.y <= eps
        &&& -eps <= self.min.z - other.min.z <= eps
        &&& -eps <= self.max.x - other.max.x <= eps
        &&& -eps <= self.max.y - other.max.y <= eps
        &&& -eps <= self.max.z - other.max.z <= eps
    }

    /// Builds the box with the given corners. The caller is responsible for
    /// `min <= max`; an inverted pair deliberately builds an empty box.
    pub fn with_bounds(min: Vec3, max: Vec3) -> (r: AABB)
        ensures
            r == (AABB { min, max }),
    {
        AABB { min, max }
    }

    /// Builds the canonical empty box, the identity of [`AABB::join`].
    pub fn empty() -> (r: AABB)
        ensures
            r == AABB::empty_spec(),
    {
        AABB {
            min: Vec3 { x: i64::MAX, y: i64::MAX, z: i64::MAX },
            max: Vec3 { x: i64::MIN, y: i64::MIN, z: i64::MIN },
        }
    }

    /// Reports whether `p` lies in `[min, max]`, componentwise, inclusive.
    pub fn contains(&self, p: &Vec3) -> (r: bool)
        ensures
            r == self.contains_spec(*p),
    {
        p.x >= self.min.x && p.x <= self.max.x && p.y >= self.min.y && p.y <= self.max.y && p.z
            >= self.min.z && p.z <= self.max.z
    }

    /// Reports whether `p` is within `epsilon` of being inside.
    pub fn approx_contains_eps(&self, p: &Vec3, epsilon: i64) -> (r: bool)
        ensures
            r == self.approx_contains_coords(p.x as int, p.y as int, p.z as int, epsilon as int),
    {
        let px = p.x as i128;
        let py = p.y as i128;
        let pz = p.z as i128;
        let eps = epsilon as i128;
        px - (self.min.x as i128) > -eps && px - (self.max.x as i128) < eps && py - (self.min.y
            as i128) > -eps && py - (self.max.y as i128) < eps && pz - (self.min.z as i128) > -eps
            && pz - (self.max.z as i128) < eps
    }

    /// Reports whether both corners of `other` are within `epsilon` of being
    /// inside `self`.
    pub fn approx_contains_aabb_eps(&self, other: &AABB, epsilon: i64) -> (r: bool)
        ensures
            r == (self.approx_contains_coords(
                other.min.x as int,
                other.min.y as int,
                other.min.z as int,
                epsilon as int,
            ) && self.approx_contains_coords(
                other.max.x as int,
                other.max.y as int,
                other.max.z as int,
                epsilon as int,
            )),
    {
        self.approx_contains_eps(&other.min, epsilon) && self.approx_contains_eps(
            &other.max,
            epsilon,
        )
    }

    /// Reports whether the two boxes agree within `epsilon`, componentwise on
    /// both corners.
    pub fn relative_eq(&self, other: &AABB, epsilon: i64) -> (r: bool)
        ensures
            r == self.relative_eq_spec(*other, epsilon),
    {
        let eps = epsilon as i128;
        let d1 = self.min.x as i128 - (other.min.x as i128);
        let d2 = self.min.y as i128 - (other.min.y as i128);
        let d3 = self.min.z as i128 - (other.min.z as i128);
        let d4 = self.max.x as i128 - (other.max.x as i128);
        let d5 = self.max.y as i128 - (other.max.y as i128);
        let d6 = self.max.z as i128 - (other.max.z as i128);
        -eps <= d1 && d1 <= eps && -eps <= d2 && d2 <= eps && -eps <= d3 && d3 <= eps && -eps <= d4
            && d4 <= eps && -eps <= d5 && d5 <= eps && -eps <= d6 && d6 <= eps
    }

    /// Returns the smallest box containing both `self` and `other`.
    pub fn join(&self, other: &AABB) -> (r: AABB)
        ensures
            r == self.join_spec(*other),
    {
        AABB {
            min: Vec3 {
                x: if self.min.x <= other.min.x {
                    self.min.x
                } else {
                    other.min.x
                },
                y: if self.min.y <= other.min.y {
                    self.min.y
                } else {
                    other.min.y
                },
                z: if self.min.z <= other.min.z {
                    self.min.z
                } else {
                    other.min.z
                },
            },
            max: Vec3 {
                x: if self.max.x <= other.max.x {
                    other.max.x
                } else {
                    self.max.x
                },
                y: if self.max.y <= other.max.y {
                    other.max.y
                } else {
                    self.max.y
                },
                z: if self.max.z <= other.max.z {
                    other.max.z
                } else {
                    self.max.z
                },
            },
        }
    }

    /// Replaces `self` with the smallest box containing `self` and `other`.
    pub fn join_mut(&mut self, other: &AABB)
        ensures
            *final(self) == old(self).join_spec(*other),
    {
        let joined = self.join(other);
        *self = joined;
    }

    /// Returns the smallest box containing `self` and the point `other`.
    pub fn grow(&self, other: &Vec3) -> (r: AABB)
        ensures
            r == self.grow_spec(*other),
    {
        self.join(&AABB { min: *other, max: *other })
    }

    /// Replaces `self` with the smallest box containing `self` and the point
    /// `other`.
    pub fn grow_mut(&mut self, other: &Vec3)
        ensures
            *final(self) == old(self).grow_spec(*other),
    {
        let grown = self.grow(other);
        *self = grown;
    }

    /// Returns the smallest box containing `self` and the bounds of `other`.
    pub fn join_bounded<T: Bounded>(&self, other: &T) -> (r: AABB)
        ensures
            r == self.join_spec(other.aabb_spec()),
    {
        self.join(&other.aabb())
    }

    /// Returns `max - min`, componentwise; negative components on an empty
    /// box, so callers that need a size check [`AABB::is_empty`] first.
    pub fn size(&self) -> (r: Vec3)
        requires
            self.in_range(),
        ensures
            r.x as int == self.size_x(),
            r.y as int == self.size_y(),
            r.z as int == self.size_z(),
    {
        Vec3 { x: self.max.x - self.min.x, y: self.max.y - self.min.y, z: self.max.z - self.min.z }
    }

    /// Returns the center of the box, each component rounded towards the
    /// lower bound.
    pub fn center(&self) -> (r: Vec3)
        requires
            self.valid(),
        ensures
            r.x as int == self.center_x(),
            r.y as int == self.center_y(),
            r.z as int == self.center_z(),
    {
        Vec3 {
            x: self.min.x + (self.max.x - self.min.x) / 2,
            y: self.min.y + (self.max.y - self.min.y) / 2,
            z: self.min.z + (self.max.z - self.min.z) / 2,
        }
    }

    /// Reports whether the bounds are inverted on some axis.
    pub fn is_empty(&self) -> (r: bool)
        ensures
            r == self.is_empty_spec(),
    {
        self.min.x > self.max.x || self.min.y > self.max.y || self.min.z > self.max.z
    }

    /// Returns the total area of the six faces.
    pub fn surface_area(&self) -> (r: i128)
        requires
            self.in_range(),
        ensures
            r as int == self.surface_area_spec(),
    {
        let sx = self.max.x as i128 - (self.min.x as i128);
        let sy = self.max.y as i128 - (self.min.y as i128);
        let sz = self.max.z as i128 - (self.min.z as i128);
        proof {
            lemma_mul_bounds(sx as int, sy as int, 0x200_0000_0000, 0x200_0000_0000);
            lemma_mul_bounds(sx as int, sz as int, 0x200_0000_0000, 0x200_0000_0000);
            lemma_mul_bounds(sy as int, sz as int, 0x200_0000_0000, 0x200_0000_0000);
        }
        2 * (sx * sy + sx * sz + sy * sz)
    }

    /// Returns the product of the three extents.
    pub fn volume(&self) -> (r: i128)
        requires
            self.in_range(),
        ensures
            r as int == self.volume_spec(),
    {
        let sx = self.max.x as i128 - (self.min.x as i128);
        let sy = self.max.y as i128 - (self.min.y as i128);
        let sz = self.max.z as i128 - (self.min.z as i128);
        proof {
            lemma_mul_bounds(sx as int, sy as int, 0x200_0000_0000, 0x200_0000_0000);
        }
        let sxy = sx * sy;
        proof {
            lemma_mul_bounds(sxy as int, sz as int, 0x4_0000_0000_0000_0000_0000, 0x200_0000_0000);
        }
        sxy * sz
    }

    /// Returns the axis of maximum extent; x wins ties with y, y wins ties
    /// with z.
    pub fn largest_axis(&self) -> (r: Axis)
        ensures
            r == self.largest_axis_spec(),
    {
        let sx = self.max.x as i128 - (self.min.x as i128);
        let sy = self.max.y as i128 - (self.min.y as i128);
        let sz = self.max.z as i128 - (self.min.z as i128);
        if sx > sy && sx > sz {
            Axis::X
        } else if sy > sz {
            Axis::Y
        } else {
            Axis::Z
        }
    }

    /// Addresses the two corners uniformly: index 0 gives the lower corner,
    /// any other index the upper corner.
    pub fn corner(&self, index: usize) -> (r: Vec3)
        ensures
            index == 0 ==> r == self.min,
            index != 0 ==> r == self.max,
    {
        if index == 0 {
            self.min
        } else {
            self.max
        }
    }
}

impl Default for AABB {
    /// The default box is the empty box.
    fn default() -> (r: AABB)
        ensures
            r == AABB::empty_spec(),
    {
        AABB::empty()
    }
}

impl Bounded for AABB {
    open spec fn aabb_spec(&self) -> AABB {
        *self
    }

    fn aabb(&self) -> (r: AABB) {
        *self
    }
}

impl Bounded for Vec3 {
    open spec fn aabb_spec(&self) -> AABB {
        AABB { min: *self, max: *self }
    }

    fn aabb(&self) -> (r: AABB) {
        AABB { min: *self, max: *self }
    }
}

/// Law: the empty box is the identity of `join`, on either side, for every
/// box.
pub proof fn lemma_join_empty_identity(b: AABB)
    ensures
        AABB::empty_spec().join_spec(b) == b,
        b.join_spec(AABB::empty_spec()) == b,
{
}

/// Law: a box joined with another contains every point either operand
/// contains.
pub proof fn lemma_join_superset(a: AABB, b: AABB, x: int, y: int, z: int)
    requires
        a.contains_coords(x, y, z) || b.contains_coords(x, y, z),
    ensures
        a.join_spec(b).contains_coords(x, y, z),
{
}

/// Law: `join` is associative; with [`lemma_join_empty_identity`] the boxes
/// form a monoid under `join`.
pub proof fn lemma_join_assoc(a: AABB, b: AABB, c: AABB)
    ensures
        a.join_spec(b).join_spec(c) == a.join_spec(b.join_spec(c)),
{
}

/// Law: a non-empty box contains its own center.
pub proof fn lemma_contains_center(b: AABB)
    requires
        !b.is_empty_spec(),
    ensures
        b.contains_coords(b.center_x(), b.center_y(), b.center_z()),
{
    let dx: int = b.max.x - b.min.x;
    let dy: int = b.max.y - b.min.y;
    let dz: int = b.max.z - b.min.z;
    assert(0 <= dx / 2 <= dx && 0 <= dy / 2 <= dy && 0 <= dz / 2 <= dz) by (nonlinear_arith)
        requires
            dx >= 0 && dy >= 0 && dz >= 0,
    ;
}

/// Law: growing the empty box by two points yields a non-empty box, so by
/// [`lemma_contains_center`] it contains its center.
pub proof fn lemma_grow_grow_nonempty(p: Vec3, q: Vec3)
    ensures
        !AABB::empty_spec().grow_spec(p).grow_spec(q).is_empty_spec(),
{
}

/// Law: a box formed by growing the empty box with two points contains its
/// own center.
pub proof fn lemma_grown_box_contains_center(p: Vec3, q: Vec3)
    ensures
        ({
            let b = AABB::empty_spec().grow_spec(p).grow_spec(q);
            b.contains_coords(b.center_x(), b.center_y(), b.center_z())
        }),
{
    lemma_grow_grow_nonempty(p, q);
    lemma_contains_center(AABB::empty_spec().grow_spec(p).grow_spec(q));
}

/// Law: a non-empty box has non-negative surface area and volume.
pub proof fn lemma_surface_volume_nonneg(b: AABB)
    requires
        !b.is_empty_spec(),
    ensures
        b.surface_area_spec() >= 0,
        b.volume_spec() >= 0,
{
    assert(b.surface_area_spec() >= 0 && b.volume_spec() >= 0) by (nonlinear_arith)
        requires
            b.size_x() >= 0 && b.size_y() >= 0 && b.size_z() >= 0,
    ;
}

/// Law: a box whose three extents all equal `s` has surface area `6 * s * s`
/// and volume `s * s * s`.
pub proof fn lemma_cube_measures(b: AABB, s: int)
    requires
        b.size_x() == s,
        b.size_y() == s,
        b.size_z() == s,
    ensures
        b.surface_area_spec() == 6 * s * s,
        b.volume_spec() == s * s * s,
{
    assert(2 * (s * s + s * s + s * s) == 6 * s * s) by (nonlinear_arith);
}

/// Both operands lie inside their join.
pub proof fn lemma_join_contains_operands(a: AABB, b: AABB)
    ensures
        box_le(a, a.join_spec(b)),
        box_le(b, a.join_spec(b)),
{
}

/// Box containment is transitive.
pub proof fn lemma_box_le_trans(a: AABB, b: AABB, c: AABB)
    requires
        box_le(a, b),
        box_le(b, c),
    ensures
        box_le(a, c),
{
}

/// The join of two valid boxes is valid.
pub proof fn lemma_join_valid(a: AABB, b: AABB)
    requires
        a.valid(),
        b.valid(),
    ensures
        a.join_spec(b).valid(),
{
}

} // verus!
