//! Shapes a hierarchy can index, and the contract every hierarchy offers.

use vstd::prelude::*;

use crate::aabb::{AABB, Bounded};
use crate::ray::{Ray, ray_hits};
use crate::utils::aabbs_of;

verus! {

/// A shape a hierarchy can index: it reports its bounds and stores the index
/// of the hierarchy node that owns it.
pub trait BHShape: Bounded {
    /// The stored node index, as specifications see it.
    spec fn bh_node_index_spec(&self) -> usize;

    /// Stores the index of the owning hierarchy node. Storing the index must
    /// not move the shape: its bounds stay exactly what they were.
    fn set_bh_node_index(&mut self, index: usize)
        ensures
            final(self).bh_node_index_spec() == index,
            final(self).aabb_spec() == old(self).aabb_spec(),
    ;

    /// Returns the stored index of the owning hierarchy node.
    fn bh_node_index(&self) -> (r: usize)
        ensures
            r == self.bh_node_index_spec(),
    ;
}

/// An acceleration structure with space partitioning, used to compute
/// ray/scene intersection candidates efficiently: it is built once over a
/// shape collection and then answers any number of ray queries.
pub trait BoundingHierarchy: Sized {
    /// The hierarchy was built over shapes with the given bounds. What the
    /// predicate holds internally is the implementation's business; `build`
    /// establishes it and `traverse` relies on it.
    spec fn built_over(&self, aabbs: Seq<AABB>) -> bool;

    /// Builds a hierarchy from the `shapes` collection. The shapes keep
    /// their bounds; only their stored node indices change.
    fn build<Shape: BHShape>(shapes: &mut Vec<Shape>) -> (h: Self)
        requires
            old(shapes)@.len() <= 0x1000_0000,
            forall|j: int|
                0 <= j < old(shapes)@.len() ==> (#[trigger] old(
                    shapes,
                )@[j].aabb_spec()).valid(),
        ensures
            final(shapes)@.len() == old(shapes)@.len(),
            forall|j: int|
                0 <= j < old(shapes)@.len() ==> (#[trigger] final(shapes)@[j].aabb_spec()) == old(
                    shapes,
                )@[j].aabb_spec(),
            h.built_over(aabbs_of(final(shapes)@)),
    ;

    /// Traverses the hierarchy: returns indices into `shapes`, without
    /// duplicates, and among them every shape whose bounds the ray meets.
    fn traverse<Shape: Bounded>(&self, ray: &Ray, shapes: &Vec<Shape>) -> (hit_ids: Vec<usize>)
        requires
            self.built_over(aabbs_of(shapes@)),
            ray.in_range_spec(),
        ensures
            hit_ids@.no_duplicates(),
            forall|k: int| 0 <= k < hit_ids@.len() ==> (#[trigger] hit_ids@[k]) < shapes@.len(),
            forall|j: int|
                0 <= j < shapes@.len() && ray_hits(*ray, shapes@[j].aabb_spec())
                    ==> hit_ids@.contains(j as usize),
    ;
}

/// The simplest indexable shape: a box together with the bookkeeping field
/// [`BHShape`] asks for. Code with richer shape types keeps its own geometry
/// and implements the two traits the same way.
#[derive(Clone, Copy, PartialEq, Eq, Structural, Debug)]
pub struct BoxShape {
    /// The geometric bounds of the shape.
    pub aabb: AABB,
    /// The index of the hierarchy node owning this shape.
    pub node_index: usize,
}

impl BoxShape {
    /// Builds a shape with the given bounds; the node index starts at zero
    /// and is overwritten when a hierarchy is built over the shape.
    pub fn new(aabb: AABB) -> (s: BoxShape)
        ensures
            s == (BoxShape { aabb, node_index: 0 }),
    {
        BoxShape { aabb, node_index: 0 }
    }
}

impl Bounded for BoxShape {
    open spec fn aabb_spec(&self) -> AABB {
        self.aabb
    }

    fn aabb(&self) -> (r: AABB) {
        self.aabb
    }
}

impl BHShape for BoxShape {
    open spec fn bh_node_index_spec(&self) -> usize {
        self.node_index
    }

    fn set_bh_node_index(&mut self, index: usize) {
        self.node_index = index;
    }

    fn bh_node_index(&self) -> (r: usize) {
        self.node_index
    }
}

} // verus!
