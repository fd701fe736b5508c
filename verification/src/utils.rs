//! Concatenation, SAH buckets, and joint bounds of shape ranges.

use vstd::prelude::*;

use crate::aabb::{AABB, Bounded, box_le};
use crate::bounding_hierarchy::BHShape;

verus! {

/// The views of a sequence of vectors, laid end to end.
pub open spec fn flatten_views<T>(vectors: Seq<Vec<T>>) -> Seq<T> {
    vectors.map_values(|v: Vec<T>| v@).flatten()
}

/// Concatenates the list of vectors into a single vector.
/// Drains the elements from the source `vectors`.
pub fn concatenate_vectors<T: Sized>(vectors: &mut Vec<Vec<T>>) -> (r: Vec<T>)
    ensures
        r@ == flatten_views(old(vectors)@),
        final(vectors)@.len() == old(vectors)@.len(),
        forall|j: int|
            0 <= j < final(vectors)@.len() ==> (#[trigger] final(vectors)@[j])@ == Seq::<
                T,
            >::empty(),
{
    let mut result: Vec<T> = Vec::new();
    let n = vectors.len();
    let mut i: usize = 0;
    while i < n
        invariant
            i <= n,
            n == vectors@.len() == old(vectors)@.len(),
            result@ == flatten_views(old(vectors)@.subrange(0, i as int)),
            forall|j: int| 0 <= j < i ==> (#[trigger] vectors@[j])@ == Seq::<T>::empty(),
            forall|j: int| i <= j < n ==> vectors@[j] == old(vectors)@[j],
        decreases n - i,
    {
        proof {
            broadcast use vstd::prelude::Seq::lemma_flatten_push;

            let f = |v: Vec<T>| v@;
            assert(old(vectors)@.subrange(0, i + 1).map_values(f) =~= old(vectors)@.subrange(
                0,
                i as int,
            ).map_values(f).push(old(vectors)@[i as int]@));
        }
        result.append(&mut vectors[i]);
        i += 1;
    }
    proof {
        assert(old(vectors)@.subrange(0, n as int) =~= old(vectors)@);
    }
    result
}

/// An accumulator for one SAH bin: how many shapes fell into the bin, and the
/// joint bounds of those shapes, absent while the bin holds none.
#[derive(Clone, Copy, PartialEq, Eq, Structural, Debug)]
pub struct Bucket {
    /// The number of shapes in this `Bucket`.
    pub size: usize,
    /// The joint [`AABB`] of the shapes in this `Bucket`.
    pub aabb: Option<AABB>,
}

/// The monoid combine of two optional joint bounds: absent is the identity,
/// two present boxes join.
pub open spec fn join_opt(a: Option<AABB>, b: Option<AABB>) -> Option<AABB> {
    match (a, b) {
        (Option::None, Option::None) => Option::None,
        (Option::Some(bx), Option::None) => Option::Some(bx),
        (Option::None, Option::Some(bx)) => Option::Some(bx),
        (Option::Some(ba), Option::Some(bb)) => Option::Some(ba.join_spec(bb)),
    }
}

impl Bucket {
    /// Returns the empty bucket, the identity of [`Bucket::join_bucket`].
    pub fn empty() -> (r: Bucket)
        ensures
            r == (Bucket { size: 0, aabb: Option::<AABB>::None }),
    {
        Bucket { size: 0, aabb: Option::None }
    }

    /// Extends this `Bucket` by one shape with the given bounds.
    pub fn add_aabb(&mut self, aabb: &AABB)
        requires
            old(self).size < usize::MAX,
        ensures
            final(self).size == old(self).size + 1,
            final(self).aabb == join_opt(old(self).aabb, Option::Some(*aabb)),
    {
        self.size = self.size + 1;
        self.aabb = match self.aabb {
            Option::Some(bbox) => Option::Some(bbox.join(aabb)),
            Option::None => Option::Some(*aabb),
        };
    }

    /// Joins the contents of two `Bucket`s: sizes add, bounds combine as in
    /// [`join_opt`].
    pub fn join_bucket(a: Bucket, b: &Bucket) -> (r: Bucket)
        requires
            a.size + b.size <= usize::MAX,
        ensures
            r.size == a.size + b.size,
            r.aabb == join_opt(a.aabb, b.aabb),
    {
        Bucket {
            size: a.size + b.size,
            aabb: match (a.aabb, b.aabb) {
                (Option::None, Option::None) => Option::None,
                (Option::Some(a_bbox), Option::None) => Option::Some(a_bbox),
                (Option::None, Option::Some(b_bbox)) => Option::Some(b_bbox),
                (Option::Some(a_bbox), Option::Some(b_bbox)) => Option::Some(
                    a_bbox.join(&b_bbox),
                ),
            },
        }
    }
}

/// Law: the optional joint bounds form a monoid under [`join_opt`]: absent is
/// the identity on either side, and the combine is associative.
pub proof fn lemma_join_opt_monoid(a: Option<AABB>, b: Option<AABB>, c: Option<AABB>)
    ensures
        join_opt(Option::None, a) == a,
        join_opt(a, Option::None) == a,
        join_opt(join_opt(a, b), c) == join_opt(a, join_opt(b, c)),
{
    match (a, b, c) {
        (Option::Some(ba), Option::Some(bb), Option::Some(bc)) => {
            crate::aabb::lemma_join_assoc(ba, bb, bc);
        },
        _ => {},
    }
}

/// The bounds of each shape in a sequence of shapes.
pub open spec fn aabbs_of<S: Bounded>(shapes: Seq<S>) -> Seq<AABB> {
    shapes.map_values(|s: S| s.aabb_spec())
}

/// The joint bounds of the shapes selected by `idxs` out of `aabbs`: the fold
/// of `join` over the selected boxes, starting from the empty box.
pub open spec fn joint_of(aabbs: Seq<AABB>, idxs: Seq<usize>) -> AABB
    decreases idxs.len(),
{
    if idxs.len() == 0 {
        AABB::empty_spec()
    } else {
        joint_of(aabbs, idxs.drop_last()).join_spec(aabbs[idxs.last() as int])
    }
}

/// Every selected box lies inside the joint bounds of the selection.
pub proof fn lemma_joint_contains_member(aabbs: Seq<AABB>, idxs: Seq<usize>, k: int)
    requires
        0 <= k < idxs.len(),
    ensures
        box_le(aabbs[idxs[k] as int], joint_of(aabbs, idxs)),
    decreases idxs.len(),
{
    if k == idxs.len() - 1 {
        crate::aabb::lemma_join_contains_operands(
            joint_of(aabbs, idxs.drop_last()),
            aabbs[idxs.last() as int],
        );
    } else {
        lemma_joint_contains_member(aabbs, idxs.drop_last(), k);
        crate::aabb::lemma_join_contains_operands(
            joint_of(aabbs, idxs.drop_last()),
            aabbs[idxs.last() as int],
        );
        crate::aabb::lemma_box_le_trans(
            aabbs[idxs[k] as int],
            joint_of(aabbs, idxs.drop_last()),
            joint_of(aabbs, idxs),
        );
    }
}

/// The joint bounds of a non-empty selection of valid boxes are valid.
pub proof fn lemma_joint_valid(aabbs: Seq<AABB>, idxs: Seq<usize>)
    requires
        idxs.len() > 0,
        forall|k: int| 0 <= k < idxs.len() ==> (#[trigger] idxs[k]) < aabbs.len(),
        forall|k: int| 0 <= k < idxs.len() ==> aabbs[#[trigger] idxs[k] as int].valid(),
    ensures
        joint_of(aabbs, idxs).valid(),
    decreases idxs.len(),
{
    assert(aabbs[idxs[idxs.len() - 1] as int].valid());
    if idxs.len() == 1 {
        assert(joint_of(aabbs, idxs.drop_last()) == AABB::empty_spec());
        crate::aabb::lemma_join_empty_identity(aabbs[idxs.last() as int]);
    } else {
        assert(forall|k: int|
            0 <= k < idxs.drop_last().len() ==> (#[trigger] idxs.drop_last()[k]) == idxs[k]);
        lemma_joint_valid(aabbs, idxs.drop_last());
        crate::aabb::lemma_join_valid(joint_of(aabbs, idxs.drop_last()), aabbs[idxs.last() as int]);
    }
}

/// Computes the joint bounds of the shapes selected by `indices`.
pub fn joint_aabb_of_shapes<Shape: BHShape>(indices: &Vec<usize>, shapes: &Vec<Shape>) -> (r: AABB)
    requires
        indices@.len() > 0,
        forall|k: int| 0 <= k < indices@.len() ==> (#[trigger] indices@[k]) < shapes@.len(),
    ensures
        r == joint_of(aabbs_of(shapes@), indices@),
{
    let mut aabb = AABB::empty();
    let n = indices.len();
    let mut i: usize = 0;
    while i < n
        invariant
            i <= n,
            n == indices@.len(),
            forall|k: int| 0 <= k < n ==> (#[trigger] indices@[k]) < shapes@.len(),
            aabb == joint_of(aabbs_of(shapes@), indices@.subrange(0, i as int)),
        decreases n - i,
    {
        let idx = indices[i];
        let shape_aabb = shapes[idx].aabb();
        proof {
            let pre = indices@.subrange(0, i as int);
            let post = indices@.subrange(0, i + 1);
            assert(post.drop_last() =~= pre);
            assert(aabbs_of(shapes@)[idx as int] == shapes@[idx as int].aabb_spec());
        }
        aabb = aabb.join(&shape_aabb);
        i += 1;
    }
    proof {
        assert(indices@.subrange(0, n as int) =~= indices@);
    }
    aabb
}

} // verus!
