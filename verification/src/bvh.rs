//! The bounding volume hierarchy: SAH construction and ray traversal.

use vstd::prelude::*;

use crate::aabb::{AABB, Bounded, box_le};
use crate::axis::Axis;
use crate::bounding_hierarchy::BHShape;
use crate::math::lemma_mul_bounds;
use crate::ray::{Ray, lemma_ray_hits_monotone, ray_hits, ray_intersects_aabb};
use crate::utils::{Bucket, aabbs_of, joint_of, lemma_joint_contains_member, lemma_joint_valid};
use vstd::multiset::Multiset;
use vstd::seq_lib::group_to_multiset_ensures;
use vstd::seq_lib::lemma_multiset_commutative;

verus! {

/// One node of the hierarchy. Nodes live in the arena owned by [`BVH`] and
/// refer to each other by index; children always come before their parent.
pub enum BVHNode {
    /// A terminal node owning shapes directly.
    Leaf {
        /// The joint bounds of the shapes this leaf owns.
        aabb: AABB,
        /// The indices of the owned shapes into the shape collection.
        shape_indices: Vec<usize>,
    },
    /// A node owning two child nodes.
    Node {
        /// The joint bounds of the two children.
        aabb: AABB,
        /// The arena index of the first child.
        child_l: usize,
        /// The arena index of the second child.
        child_r: usize,
    },
}

/// The bounds a node stores.
pub open spec fn node_aabb(n: BVHNode) -> AABB {
    match n {
        BVHNode::Leaf { aabb, .. } => aabb,
        BVHNode::Node { aabb, .. } => aabb,
    }
}

/// Well-formedness of the node at arena index `i`, against the bounds of the
/// shape collection: a leaf is non-empty, refers only to existing shapes, and
/// stores exactly the joint bounds of its shapes; an inner node refers to two
/// earlier arena slots and stores exactly the join of its children's bounds.
pub open spec fn node_wf(nodes: Seq<BVHNode>, aabbs: Seq<AABB>, i: int) -> bool {
    match nodes[i] {
        BVHNode::Leaf { aabb, shape_indices } => {
            &&& shape_indices@.len() > 0
            &&& forall|k: int|
                0 <= k < shape_indices@.len() ==> (#[trigger] shape_indices@[k]) < aabbs.len()
            &&& aabb == joint_of(aabbs, shape_indices@)
            &&& aabb.valid()
        },
        BVHNode::Node { aabb, child_l, child_r } => {
            &&& child_l < i
            &&& child_r < i
            &&& aabb == node_aabb(nodes[child_l as int]).join_spec(node_aabb(nodes[child_r as int]))
            &&& aabb.valid()
        },
    }
}

/// Every node of the arena is well-formed.
pub open spec fn bvh_wf(nodes: Seq<BVHNode>, aabbs: Seq<AABB>) -> bool {
    forall|i: int| 0 <= i < nodes.len() ==> node_wf(nodes, aabbs, i)
}

/// The multiset of shape indices owned by the leaves of the subtree rooted at
/// arena index `i`.
pub open spec fn subtree_shapes(nodes: Seq<BVHNode>, i: int) -> Multiset<usize>
    decreases i,
{
    if 0 <= i < nodes.len() {
        match nodes[i] {
            BVHNode::Leaf { shape_indices, .. } => shape_indices@.to_multiset(),
            BVHNode::Node { child_l, child_r, .. } => {
                if child_l < i && child_r < i {
                    subtree_shapes(nodes, child_l as int).add(
                        subtree_shapes(nodes, child_r as int),
                    )
                } else {
                    Multiset::empty()
                }
            },
        }
    } else {
        Multiset::empty()
    }
}

/// The shape indices a depth-first descent from arena index `i` reports for
/// the given ray: nothing if the ray misses the node's bounds, the leaf's
/// whole list at a leaf, and both children's reports at an inner node.
pub open spec fn hit_indices(nodes: Seq<BVHNode>, ray: Ray, i: int) -> Seq<usize>
    decreases i,
{
    if 0 <= i < nodes.len() && ray_hits(ray, node_aabb(nodes[i])) {
        match nodes[i] {
            BVHNode::Leaf { shape_indices, .. } => shape_indices@,
            BVHNode::Node { child_l, child_r, .. } => {
                if child_l < i && child_r < i {
                    hit_indices(nodes, ray, child_l as int) + hit_indices(nodes, ray, child_r as int)
                } else {
                    Seq::empty()
                }
            },
        }
    } else {
        Seq::empty()
    }
}

/// The node at arena index `l` is a leaf owning shape index `j`.
pub open spec fn leaf_owns(nodes: Seq<BVHNode>, l: int, j: usize) -> bool {
    &&& 0 <= l < nodes.len()
    &&& match nodes[l] {
        BVHNode::Leaf { shape_indices, .. } => shape_indices@.contains(j),
        BVHNode::Node { .. } => false,
    }
}

/// The multiset holding each of `0, 1, ..., n - 1` exactly once.
pub open spec fn all_indices(n: int) -> Multiset<usize> {
    Seq::new(n as nat, |i: int| i as usize).to_multiset()
}

/// A bounding volume hierarchy: a binary tree of boxes in an index arena.
/// Children precede their parent, so the root is the last slot; an empty
/// arena is the hierarchy over no shapes.
pub struct BVH {
    /// The node arena.
    pub nodes: Vec<BVHNode>,
}

impl BVH {
    /// The arena index of the root node.
    pub open spec fn root(self) -> int {
        self.nodes@.len() - 1
    }

    /// The hierarchy is exactly one [`BVH::build`] produces over shapes with
    /// the given bounds: every node well-formed, and the leaves together
    /// owning every shape index exactly once.
    pub open spec fn built_over(self, aabbs: Seq<AABB>) -> bool {
        &&& bvh_wf(self.nodes@, aabbs)
        &&& (aabbs.len() == 0 <==> self.nodes@.len() == 0)
        &&& (aabbs.len() > 0 ==> subtree_shapes(self.nodes@, self.root()) == all_indices(
            aabbs.len() as int,
        ))
    }
}

/// `all_indices(n)` holds `j` once when `j < n` and never otherwise.
pub proof fn lemma_all_indices_count(n: int, j: usize)
    requires
        0 <= n <= usize::MAX,
    ensures
        all_indices(n).count(j) == if (j as int) < n {
            1int
        } else {
            0int
        },
    decreases n,
{
    broadcast use group_to_multiset_ensures;
    broadcast use vstd::multiset::group_multiset_axioms;

    let f = |i: int| i as usize;
    if n == 0 {
        let e = Seq::<usize>::empty();
        assert(Seq::new(0nat, f) =~= e);
        assert(all_indices(0) == e.to_multiset());
        assert(e.to_multiset().count(j) == 0) by {
            if e.to_multiset().count(j) > 0 {
                assert(e.contains(j));
            }
        }
    } else {
        lemma_all_indices_count(n - 1, j);
        let prev = Seq::new((n - 1) as nat, f);
        let last = (n - 1) as usize;
        assert(Seq::new(n as nat, f) =~= prev.push(last));
        assert(prev.push(last).to_multiset() =~= prev.to_multiset().insert(last));
        assert(all_indices(n) == prev.push(last).to_multiset());
        assert(all_indices(n - 1) == prev.to_multiset()) by {
            assert(Seq::new((n - 1) as nat, |i: int| i as usize) =~= prev);
        }
        assert(last as int == n - 1);
    }
}

/// A subtree reports the same shapes after the arena grows: the new slots sit
/// after every slot the subtree reads.
proof fn lemma_subtree_shapes_prefix(n1: Seq<BVHNode>, n2: Seq<BVHNode>, i: int)
    requires
        n1.len() <= n2.len(),
        forall|k: int| 0 <= k < n1.len() ==> n2[k] == n1[k],
        0 <= i < n1.len(),
    ensures
        subtree_shapes(n2, i) == subtree_shapes(n1, i),
    decreases i,
{
    match n1[i] {
        BVHNode::Leaf { .. } => {},
        BVHNode::Node { child_l, child_r, .. } => {
            if child_l < i && child_r < i {
                lemma_subtree_shapes_prefix(n1, n2, child_l as int);
                lemma_subtree_shapes_prefix(n1, n2, child_r as int);
            }
        },
    }
}

/// A well-formed node stays well-formed after the arena grows.
proof fn lemma_node_wf_prefix(n1: Seq<BVHNode>, n2: Seq<BVHNode>, aabbs: Seq<AABB>, i: int)
    requires
        n1.len() <= n2.len(),
        forall|k: int| 0 <= k < n1.len() ==> n2[k] == n1[k],
        0 <= i < n1.len(),
        node_wf(n1, aabbs, i),
    ensures
        node_wf(n2, aabbs, i),
{
}

/// The bounds of each shape seen by two shape collections agree, so every
/// predicate over the bounds transfers.
proof fn lemma_aabbs_of_stable<Shape: Bounded>(s1: Seq<Shape>, s2: Seq<Shape>)
    requires
        s1.len() == s2.len(),
        forall|j: int| 0 <= j < s1.len() ==> s1[j].aabb_spec() == s2[j].aabb_spec(),
    ensures
        aabbs_of(s1) == aabbs_of(s2),
{
    assert(aabbs_of(s1) =~= aabbs_of(s2));
}

/// `|surface_area_spec|` of an in-range box stays below `6 * 2^82`.
proof fn lemma_sa_bound(b: AABB)
    requires
        b.in_range(),
    ensures
        -0x18_0000_0000_0000_0000_0000 <= b.surface_area_spec() <= 0x18_0000_0000_0000_0000_0000,
{
    lemma_mul_bounds(b.size_x(), b.size_y(), 0x200_0000_0000, 0x200_0000_0000);
    lemma_mul_bounds(b.size_x(), b.size_z(), 0x200_0000_0000, 0x200_0000_0000);
    lemma_mul_bounds(b.size_y(), b.size_z(), 0x200_0000_0000, 0x200_0000_0000);
}

/// A bucket's optional bounds, when present, are a valid box.
spec fn bucket_inv(b: Bucket) -> bool {
    match b.aabb {
        Option::Some(x) => x.valid(),
        Option::None => true,
    }
}

/// Reads the bounds stored in the node at arena index `i`.
fn node_aabb_of(nodes: &Vec<BVHNode>, i: usize) -> (r: AABB)
    requires
        i < nodes@.len(),
    ensures
        r == node_aabb(nodes@[i as int]),
{
    match &nodes[i] {
        BVHNode::Leaf { aabb, .. } => *aabb,
        BVHNode::Node { aabb, .. } => *aabb,
    }
}

/// The coordinate of `v` along `axis`.
fn coord_along(v: &crate::vector::Vec3, axis: Axis) -> (r: i64)
    ensures
        match axis {
            Axis::X => r == v.x,
            Axis::Y => r == v.y,
            Axis::Z => r == v.z,
        },
{
    match axis {
        Axis::X => v.x,
        Axis::Y => v.y,
        Axis::Z => v.z,
    }
}

/// Maps a center coordinate `c`, relative to the low bound `amin` of an
/// extent of positive length `extent`, to one of the six SAH buckets.
fn bucket_index(c: i64, amin: i64, extent: i128) -> (b: usize)
    requires
        extent > 0,
    ensures
        b < 6,
{
    let rel = (c as i128) - (amin as i128);
    let raw = (rel * 6) / extent;
    if raw < 0 {
        0
    } else if raw > 5 {
        5
    } else {
        raw as usize
    }
}

/// Computes the joint bounds of the shapes selected by `indices[lo..hi]`.
fn joint_of_range<Shape: BHShape>(
    indices: &Vec<usize>,
    shapes: &Vec<Shape>,
    lo: usize,
    hi: usize,
) -> (r: AABB)
    requires
        lo < hi <= indices@.len(),
        forall|k: int| lo <= k < hi ==> (#[trigger] indices@[k]) < shapes@.len(),
    ensures
        r == joint_of(aabbs_of(shapes@), indices@.subrange(lo as int, hi as int)),
{
    let mut aabb = AABB::empty();
    let mut i: usize = lo;
    while i < hi
        invariant
            lo <= i <= hi <= indices@.len(),
            forall|k: int| lo <= k < hi ==> (#[trigger] indices@[k]) < shapes@.len(),
            aabb == joint_of(aabbs_of(shapes@), indices@.subrange(lo as int, i as int)),
        decreases hi - i,
    {
        let idx = indices[i];
        let shape_aabb = shapes[idx].aabb();
        proof {
            let pre = indices@.subrange(lo as int, i as int);
            let post = indices@.subrange(lo as int, i + 1);
            assert(post.drop_last() =~= pre);
            assert(aabbs_of(shapes@)[idx as int] == shapes@[idx as int].aabb_spec());
        }
        aabb = aabb.join(&shape_aabb);
        i += 1;
    }
    aabb
}

impl BVH {
    /// Builds a hierarchy over the shapes with the surface-area heuristic,
    /// and stamps every shape with the arena index of the leaf owning it.
    ///
    /// Afterwards the hierarchy is built over the shapes' bounds: every node
    /// is well-formed, the leaves own every shape index exactly once, the
    /// shapes keep their bounds (only the stored node index changes), and
    /// zero shapes yield the empty hierarchy.
    pub fn build<Shape: BHShape>(shapes: &mut Vec<Shape>) -> (bvh: BVH)
        requires
            old(shapes)@.len() <= 0x1000_0000,
            forall|j: int|
                0 <= j < old(shapes)@.len() ==> (#[trigger] old(
                    shapes,
                )@[j].aabb_spec()).valid(),
        ensures
            final(shapes)@.len() == old(shapes)@.len(),
            forall|j: int|
                0 <= j < old(shapes)@.len() ==> (#[trigger] final(shapes)@[j].aabb_spec()) == old(
                    shapes,
                )@[j].aabb_spec(),
            bvh.built_over(aabbs_of(final(shapes)@)),
            forall|j: int|
                0 <= j < final(shapes)@.len() ==> leaf_owns(
                    bvh.nodes@,
                    final(shapes)@[j].bh_node_index_spec() as int,
                    j as usize,
                ),
    {
        let n = shapes.len();
        if n == 0 {
            let bvh = BVH { nodes: Vec::new() };
            proof {
                assert(aabbs_of(shapes@).len() == 0);
            }
            return bvh;
        }
        let mut indices: Vec<usize> = Vec::new();
        let mut i: usize = 0;
        while i < n
            invariant
                i <= n,
                indices@.len() == i as int,
                indices@ == Seq::new(i as nat, |t: int| t as usize),
            decreases n - i,
        {
            indices.push(i);
            proof {
                assert(indices@ =~= Seq::new((i + 1) as nat, |t: int| t as usize));
            }
            i += 1;
        }
        let mut nodes: Vec<BVHNode> = Vec::new();
        let ghost indices0 = indices@;
        let root_idx = build_recursive(shapes, &mut indices, 0, n, &mut nodes);
        proof {
            broadcast use group_to_multiset_ensures;

            let aabbs = aabbs_of(shapes@);
            assert(aabbs.len() == n as int);
            assert(bvh_wf(nodes@, aabbs));
            let all = Seq::new(n as nat, |t: int| t as usize);
            assert(indices0.subrange(0, n as int) =~= all);
            assert(Seq::new(n as nat, |i: int| i as usize) =~= all);
            assert(subtree_shapes(nodes@, root_idx as int) == all.to_multiset());
            assert(all_indices(n as int) == all.to_multiset());
            assert forall|j: int| 0 <= j < shapes@.len() implies leaf_owns(
                nodes@,
                shapes@[j].bh_node_index_spec() as int,
                j as usize,
            ) by {
                lemma_all_indices_count(n as int, j as usize);
                assert(indices0.subrange(0, n as int).to_multiset().count(j as usize) > 0);
            }
        }
        BVH { nodes }
    }
}

/// Recursively builds the subtree over `indices[lo..hi]`, appending its nodes
/// to the arena and returning the arena index of the subtree root. The range
/// is permuted in place; everything outside it is untouched. Every shape
/// whose index lies in the range is stamped with the arena index of the leaf
/// that owns it, and no other shape's stamp changes.
fn build_recursive<Shape: BHShape>(
    shapes: &mut Vec<Shape>,
    indices: &mut Vec<usize>,
    lo: usize,
    hi: usize,
    nodes: &mut Vec<BVHNode>,
) -> (root_idx: usize)
    requires
        lo < hi <= old(indices)@.len(),
        old(indices)@.len() <= 0x1000_0000,
        forall|k: int| lo <= k < hi ==> (#[trigger] old(indices)@[k]) < old(shapes)@.len(),
        forall|j: int|
            0 <= j < old(shapes)@.len() ==> (#[trigger] old(shapes)@[j].aabb_spec()).valid(),
    ensures
        final(indices)@.len() == old(indices)@.len(),
        forall|k: int|
            0 <= k < old(indices)@.len() && !(lo <= k < hi) ==> final(indices)@[k] == old(
                indices,
            )@[k],
        final(indices)@.subrange(lo as int, hi as int).to_multiset() == old(indices)@.subrange(
            lo as int,
            hi as int,
        ).to_multiset(),
        forall|k: int| lo <= k < hi ==> (#[trigger] final(indices)@[k]) < final(shapes)@.len(),
        final(shapes)@.len() == old(shapes)@.len(),
        forall|j: int|
            0 <= j < old(shapes)@.len() ==> (#[trigger] final(shapes)@[j].aabb_spec()) == old(
                shapes,
            )@[j].aabb_spec(),
        old(nodes)@.len() <= root_idx,
        root_idx + 1 == final(nodes)@.len(),
        forall|k: int| 0 <= k < old(nodes)@.len() ==> final(nodes)@[k] == old(nodes)@[k],
        forall|k: int|
            old(nodes)@.len() <= k < final(nodes)@.len() ==> node_wf(
                final(nodes)@,
                aabbs_of(final(shapes)@),
                k,
            ),
        subtree_shapes(final(nodes)@, root_idx as int) == old(indices)@.subrange(
            lo as int,
            hi as int,
        ).to_multiset(),
        forall|j: usize|
            old(indices)@.subrange(lo as int, hi as int).to_multiset().count(j) > 0 ==> leaf_owns(
                final(nodes)@,
                final(shapes)@[j as int].bh_node_index_spec() as int,
                j,
            ),
        forall|j: int|
            0 <= j < old(shapes)@.len() && old(indices)@.subrange(
                lo as int,
                hi as int,
            ).to_multiset().count(j as usize) == 0 ==> final(shapes)@[j].bh_node_index_spec()
                == old(shapes)@[j].bh_node_index_spec(),
    decreases hi - lo, 1int,
{
    proof {
        broadcast use group_to_multiset_ensures;

    }
    if hi - lo == 1 {
        // Leaf: the range holds a single shape.
        let shape_idx = indices[lo];
        let aabb = shapes[shape_idx].aabb();
        let node_index = nodes.len();
        let mut shape_indices: Vec<usize> = Vec::new();
        shape_indices.push(shape_idx);
        proof {
            let aabbs = aabbs_of(shapes@);
            assert(shape_indices@ =~= seq![shape_idx]);
            assert(shape_indices@.drop_last() =~= Seq::<usize>::empty());
            assert(joint_of(aabbs, shape_indices@.drop_last()) == AABB::empty_spec());
            crate::aabb::lemma_join_empty_identity(aabbs[shape_idx as int]);
            assert(aabbs[shape_idx as int] == shapes@[shape_idx as int].aabb_spec());
            assert(joint_of(aabbs, shape_indices@) == aabb);
        }
        let ghost shape_indices_view = shape_indices@;
        nodes.push(BVHNode::Leaf { aabb, shape_indices });
        let s = &mut shapes[shape_idx];
        s.set_bh_node_index(node_index);
        proof {
            let aabbs = aabbs_of(shapes@);
            lemma_aabbs_of_stable(old(shapes)@, shapes@);
            let sub = old(indices)@.subrange(lo as int, hi as int);
            assert(sub =~= shape_indices_view);
            assert(sub.contains(shape_idx));
            assert(sub.to_multiset().count(shape_idx) > 0);
            assert(node_wf(nodes@, aabbs, node_index as int));
            assert(subtree_shapes(nodes@, node_index as int) == shape_indices_view.to_multiset());
            // The only index with positive count in the singleton range is
            // the stamped shape itself.
            assert forall|j: usize| sub.to_multiset().count(j) > 0 implies leaf_owns(
                nodes@,
                shapes@[j as int].bh_node_index_spec() as int,
                j,
            ) by {
                assert(sub.contains(j));
                assert(j == shape_idx);
                assert(shape_indices_view.contains(j));
            }
        }
        node_index
    } else {
        // Choose the split position `mid`.
        let joint = joint_of_range(indices, shapes, lo, hi);
        proof {
            let sub = indices@.subrange(lo as int, hi as int);
            assert forall|k: int| 0 <= k < sub.len() implies (#[trigger] sub[k]) < shapes@.len()
                && aabbs_of(shapes@)[sub[k] as int].valid() by {
                assert(sub[k] == indices@[lo + k]);
            }
            lemma_joint_valid(aabbs_of(shapes@), sub);
        }
        let axis = joint.largest_axis();
        let size = joint.size();
        let extent = coord_along(&size, axis) as i128;
        let amin = coord_along(&joint.min, axis);
        let mut mid: usize = lo + (hi - lo) / 2;
        if extent > 0 {
            // Bin the shapes of the range into six SAH buckets.
            let mut buckets: Vec<Bucket> = Vec::new();
            let mut bi: usize = 0;
            while bi < 6
                invariant
                    bi <= 6,
                    buckets@.len() == bi as int,
                    forall|b: int|
                        0 <= b < bi ==> (#[trigger] buckets@[b]) == (Bucket {
                            size: 0,
                            aabb: Option::<AABB>::None,
                        }),
                decreases 6 - bi,
            {
                buckets.push(Bucket::empty());
                bi += 1;
            }
            let mut k: usize = lo;
            while k < hi
                invariant
                    lo <= k <= hi <= indices@.len(),
                    buckets@.len() == 6,
                    forall|t: int| lo <= t < hi ==> (#[trigger] indices@[t]) < shapes@.len(),
                    forall|j: int|
                        0 <= j < shapes@.len() ==> (#[trigger] shapes@[j].aabb_spec()).valid(),
                    extent > 0,
                    forall|b: int| 0 <= b < 6 ==> (#[trigger] buckets@[b]).size <= k - lo,
                    forall|b: int| 0 <= b < 6 ==> bucket_inv(#[trigger] buckets@[b]),
                decreases hi - k,
            {
                let idx = indices[k];
                let sb = shapes[idx].aabb();
                let cvec = sb.center();
                let c = coord_along(&cvec, axis);
                let b = bucket_index(c, amin, extent);
                proof {
                    if buckets@[b as int].aabb is Some {
                        crate::aabb::lemma_join_valid(buckets@[b as int].aabb->0, sb);
                    }
                }
                let bslot = &mut buckets[b];
                bslot.add_aabb(&sb);
                k += 1;
            }
            // Suffix accumulators: suf_from[s] combines buckets s..6.
            let mut suf_from: Vec<Bucket> = Vec::new();
            let mut si: usize = 0;
            while si < 7
                invariant
                    si <= 7,
                    suf_from@.len() == si as int,
                    forall|t: int|
                        0 <= t < si ==> (#[trigger] suf_from@[t]) == (Bucket {
                            size: 0,
                            aabb: Option::<AABB>::None,
                        }),
                decreases 7 - si,
            {
                suf_from.push(Bucket::empty());
                si += 1;
            }
            let mut t: usize = 6;
            while t > 0
                invariant
                    t <= 6,
                    suf_from@.len() == 7,
                    buckets@.len() == 6,
                    forall|b: int| 0 <= b < 6 ==> (#[trigger] buckets@[b]).size <= hi - lo,
                    forall|b: int| 0 <= b < 6 ==> bucket_inv(#[trigger] buckets@[b]),
                    hi - lo <= 0x1000_0000,
                    forall|x: int|
                        0 <= x < 7 ==> (#[trigger] suf_from@[x]).size <= (7 - x) * 0x1000_0000,
                    forall|x: int| 0 <= x < 7 ==> bucket_inv(#[trigger] suf_from@[x]),
                decreases t,
            {
                t -= 1;
                proof {
                    if buckets@[t as int].aabb is Some && suf_from@[t + 1].aabb is Some {
                        crate::aabb::lemma_join_valid(
                            buckets@[t as int].aabb->0,
                            suf_from@[t + 1].aabb->0,
                        );
                    }
                }
                let combined = Bucket::join_bucket(buckets[t], &suf_from[t + 1]);
                suf_from[t] = combined;
            }
            // Scan the five interior split points for the cheapest one; the
            // lowest split index wins ties.
            let mut pref = Bucket::empty();
            let mut best_found = false;
            let mut best_split: usize = 1;
            let mut best_cost: i128 = 0;
            let mut s: usize = 1;
            while s < 6
                invariant
                    1 <= s <= 6,
                    buckets@.len() == 6,
                    suf_from@.len() == 7,
                    forall|b: int| 0 <= b < 6 ==> (#[trigger] buckets@[b]).size <= hi - lo,
                    forall|b: int| 0 <= b < 6 ==> bucket_inv(#[trigger] buckets@[b]),
                    hi - lo <= 0x1000_0000,
                    forall|x: int|
                        0 <= x < 7 ==> (#[trigger] suf_from@[x]).size <= (7 - x) * 0x1000_0000,
                    forall|x: int| 0 <= x < 7 ==> bucket_inv(#[trigger] suf_from@[x]),
                    pref.size <= (s - 1) * 0x1000_0000,
                    bucket_inv(pref),
                    1 <= best_split < 6,
                decreases 6 - s,
            {
                proof {
                    if pref.aabb is Some && buckets@[s - 1].aabb is Some {
                        crate::aabb::lemma_join_valid(pref.aabb->0, buckets@[s - 1].aabb->0);
                    }
                }
                pref = Bucket::join_bucket(pref, &buckets[s - 1]);
                let sufb = suf_from[s];
                if pref.size > 0 && sufb.size > 0 {
                    match (pref.aabb, sufb.aabb) {
                        (Option::Some(pa), Option::Some(sa)) => {
                            proof {
                                lemma_sa_bound(pa);
                                lemma_sa_bound(sa);
                            }
                            let pa_area = pa.surface_area();
                            let sa_area = sa.surface_area();
                            proof {
                                lemma_mul_bounds(
                                    pref.size as int,
                                    pa_area as int,
                                    0x8000_0000,
                                    0x18_0000_0000_0000_0000_0000,
                                );
                                lemma_mul_bounds(
                                    sufb.size as int,
                                    sa_area as int,
                                    0x8000_0000,
                                    0x18_0000_0000_0000_0000_0000,
                                );
                            }
                            let cost = (pref.size as i128) * pa_area + (sufb.size as i128)
                                * sa_area;
                            if !best_found || cost < best_cost {
                                best_found = true;
                                best_cost = cost;
                                best_split = s;
                            }
                        },
                        _ => {},
                    }
                }
                s += 1;
            }
            if best_found {
                // Partition the range by bucket index against the chosen
                // split.
                let mut left: Vec<usize> = Vec::new();
                let mut right: Vec<usize> = Vec::new();
                let mut k2: usize = lo;
                while k2 < hi
                    invariant
                        lo <= k2 <= hi <= indices@.len(),
                        forall|x: int| lo <= x < hi ==> (#[trigger] indices@[x]) < shapes@.len(),
                        forall|j: int|
                            0 <= j < shapes@.len() ==> (#[trigger] shapes@[j].aabb_spec()).valid(),
                        extent > 0,
                        left@.len() + right@.len() == k2 - lo,
                        left@.to_multiset().add(right@.to_multiset()) == indices@.subrange(
                            lo as int,
                            k2 as int,
                        ).to_multiset(),
                        forall|x: int| 0 <= x < left@.len() ==> (#[trigger] left@[x]) < shapes@.len(),
                        forall|x: int|
                            0 <= x < right@.len() ==> (#[trigger] right@[x]) < shapes@.len(),
                    decreases hi - k2,
                {
                    let idx = indices[k2];
                    let sb = shapes[idx].aabb();
                    let cvec = sb.center();
                    let c = coord_along(&cvec, axis);
                    let b = bucket_index(c, amin, extent);
                    let ghost left0 = left@;
                    let ghost right0 = right@;
                    let ghost sub0 = indices@.subrange(lo as int, k2 as int);
                    proof {
                        broadcast use group_to_multiset_ensures;
                        broadcast use vstd::multiset::group_multiset_axioms;

                        assert(indices@.subrange(lo as int, k2 + 1) =~= sub0.push(idx));
                        assert(sub0.push(idx).to_multiset() =~= sub0.to_multiset().insert(idx));
                    }
                    if b < best_split {
                        left.push(idx);
                        proof {
                            broadcast use group_to_multiset_ensures;
                            broadcast use vstd::multiset::group_multiset_axioms;

                            assert(left0.push(idx).to_multiset() =~= left0.to_multiset().insert(
                                idx,
                            ));
                            assert(left@.to_multiset().add(right@.to_multiset())
                                =~= sub0.to_multiset().insert(idx));
                        }
                    } else {
                        right.push(idx);
                        proof {
                            broadcast use group_to_multiset_ensures;
                            broadcast use vstd::multiset::group_multiset_axioms;

                            assert(right0.push(idx).to_multiset() =~= right0.to_multiset().insert(
                                idx,
                            ));
                            assert(left@.to_multiset().add(right@.to_multiset())
                                =~= sub0.to_multiset().insert(idx));
                        }
                    }
                    k2 += 1;
                }
                if left.len() > 0 && right.len() > 0 {
                    // Write the two sides back into the range.
                    let ghost pre_indices = indices@;
                    mid = lo + left.len();
                    let mut w: usize = 0;
                    while w < left.len()
                        invariant
                            w <= left@.len(),
                            lo + left@.len() + right@.len() == hi <= indices@.len(),
                            indices@.len() == pre_indices.len(),
                            forall|x: int|
                                0 <= x < indices@.len() && !(lo <= x < lo + w) ==> indices@[x]
                                    == pre_indices[x],
                            forall|x: int| 0 <= x < w ==> indices@[lo + x] == left@[x],
                            forall|x: int| 0 <= x < left@.len() ==> (#[trigger] left@[x])
                                < shapes@.len(),
                        decreases left@.len() - w,
                    {
                        let v = left[w];
                        indices[lo + w] = v;
                        w += 1;
                    }
                    let mut w2: usize = 0;
                    while w2 < right.len()
                        invariant
                            w2 <= right@.len(),
                            mid == lo + left@.len(),
                            lo + left@.len() + right@.len() == hi <= indices@.len(),
                            indices@.len() == pre_indices.len(),
                            forall|x: int|
                                0 <= x < indices@.len() && !(lo <= x < lo + left@.len() + w2)
                                    ==> indices@[x] == pre_indices[x],
                            forall|x: int| 0 <= x < left@.len() ==> indices@[lo + x] == left@[x],
                            forall|x: int|
                                0 <= x < w2 ==> indices@[lo + left@.len() + x] == right@[x],
                            forall|x: int| 0 <= x < right@.len() ==> (#[trigger] right@[x])
                                < shapes@.len(),
                        decreases right@.len() - w2,
                    {
                        let v = right[w2];
                        indices[mid + w2] = v;
                        w2 += 1;
                    }
                    proof {
                        broadcast use vstd::multiset::group_multiset_axioms;

                        assert(indices@.subrange(lo as int, mid as int) =~= left@);
                        assert(indices@.subrange(mid as int, hi as int) =~= right@);
                        assert(indices@.subrange(lo as int, hi as int) =~= left@ + right@);
                        lemma_multiset_commutative(left@, right@);
                        assert(pre_indices.subrange(lo as int, hi as int).to_multiset()
                            =~= indices@.subrange(lo as int, hi as int).to_multiset());
                        assert forall|x: int| lo <= x < hi implies (#[trigger] indices@[x])
                            < shapes@.len() by {
                            if x < mid {
                                assert(indices@[x] == left@[x - lo]);
                            } else {
                                assert(indices@[x] == right@[x - mid]);
                            }
                        }
                    }
                } else {
                    mid = lo + (hi - lo) / 2;
                }
            }
        }
        proof {
            assert(lo < mid < hi) by {
                assert((hi - lo) / 2 >= 1 && (hi - lo) / 2 < hi - lo) by (nonlinear_arith)
                    requires
                        hi - lo >= 2,
                ;
            }
        }
        build_subtrees(shapes, indices, lo, mid, hi, nodes)
    }
}

/// Builds the two subtrees over `indices[lo..mid]` and `indices[mid..hi]` and
/// joins them under a fresh inner node.
fn build_subtrees<Shape: BHShape>(
    shapes: &mut Vec<Shape>,
    indices: &mut Vec<usize>,
    lo: usize,
    mid: usize,
    hi: usize,
    nodes: &mut Vec<BVHNode>,
) -> (root_idx: usize)
    requires
        lo < mid < hi <= old(indices)@.len(),
        old(indices)@.len() <= 0x1000_0000,
        forall|k: int| lo <= k < hi ==> (#[trigger] old(indices)@[k]) < old(shapes)@.len(),
        forall|j: int|
            0 <= j < old(shapes)@.len() ==> (#[trigger] old(shapes)@[j].aabb_spec()).valid(),
    ensures
        final(indices)@.len() == old(indices)@.len(),
        forall|k: int|
            0 <= k < old(indices)@.len() && !(lo <= k < hi) ==> final(indices)@[k] == old(
                indices,
            )@[k],
        final(indices)@.subrange(lo as int, hi as int).to_multiset() == old(indices)@.subrange(
            lo as int,
            hi as int,
        ).to_multiset(),
        forall|k: int| lo <= k < hi ==> (#[trigger] final(indices)@[k]) < final(shapes)@.len(),
        final(shapes)@.len() == old(shapes)@.len(),
        forall|j: int|
            0 <= j < old(shapes)@.len() ==> (#[trigger] final(shapes)@[j].aabb_spec()) == old(
                shapes,
            )@[j].aabb_spec(),
        old(nodes)@.len() <= root_idx,
        root_idx + 1 == final(nodes)@.len(),
        forall|k: int| 0 <= k < old(nodes)@.len() ==> final(nodes)@[k] == old(nodes)@[k],
        forall|k: int|
            old(nodes)@.len() <= k < final(nodes)@.len() ==> node_wf(
                final(nodes)@,
                aabbs_of(final(shapes)@),
                k,
            ),
        subtree_shapes(final(nodes)@, root_idx as int) == old(indices)@.subrange(
            lo as int,
            hi as int,
        ).to_multiset(),
        forall|j: usize|
            old(indices)@.subrange(lo as int, hi as int).to_multiset().count(j) > 0 ==> leaf_owns(
                final(nodes)@,
                final(shapes)@[j as int].bh_node_index_spec() as int,
                j,
            ),
        forall|j: int|
            0 <= j < old(shapes)@.len() && old(indices)@.subrange(
                lo as int,
                hi as int,
            ).to_multiset().count(j as usize) == 0 ==> final(shapes)@[j].bh_node_index_spec()
                == old(shapes)@[j].bh_node_index_spec(),
    decreases hi - lo, 0int,
{
    proof {
        broadcast use group_to_multiset_ensures;
        broadcast use vstd::multiset::group_multiset_axioms;

        assert(old(indices)@.subrange(lo as int, hi as int) =~= old(indices)@.subrange(
            lo as int,
            mid as int,
        ) + old(indices)@.subrange(mid as int, hi as int));
        lemma_multiset_commutative(
            old(indices)@.subrange(lo as int, mid as int),
            old(indices)@.subrange(mid as int, hi as int),
        );
    }
    let left_id = build_recursive(shapes, indices, lo, mid, nodes);
    let ghost shapes1 = shapes@;
    let ghost indices1 = indices@;
    let ghost nodes1 = nodes@;
    proof {
        assert(indices1.subrange(mid as int, hi as int) =~= old(indices)@.subrange(
            mid as int,
            hi as int,
        ));
        assert(indices1.subrange(lo as int, mid as int).to_multiset() == old(indices)@.subrange(
            lo as int,
            mid as int,
        ).to_multiset());
    }
    let right_id = build_recursive(shapes, indices, mid, hi, nodes);
    let ghost shapes2 = shapes@;
    let ghost indices2 = indices@;
    let ghost nodes2 = nodes@;
    proof {
        lemma_aabbs_of_stable(shapes1, shapes2);
        lemma_aabbs_of_stable(old(shapes)@, shapes1);
        assert(indices2.subrange(lo as int, mid as int) =~= indices1.subrange(
            lo as int,
            mid as int,
        ));
        assert(indices2.subrange(lo as int, hi as int) =~= indices2.subrange(lo as int, mid as int)
            + indices2.subrange(mid as int, hi as int));
        lemma_multiset_commutative(
            indices2.subrange(lo as int, mid as int),
            indices2.subrange(mid as int, hi as int),
        );
    }
    let l_aabb = node_aabb_of(nodes, left_id);
    let r_aabb = node_aabb_of(nodes, right_id);
    let parent = nodes.len();
    let joined = l_aabb.join(&r_aabb);
    proof {
        // Both children are well-formed in their own arenas, hence valid.
        assert(node_wf(nodes2, aabbs_of(shapes2), left_id as int)) by {
            lemma_node_wf_prefix(nodes1, nodes2, aabbs_of(shapes2), left_id as int);
        }
        assert(node_wf(nodes2, aabbs_of(shapes2), right_id as int));
        assert(node_aabb(nodes2[left_id as int]).valid() && node_aabb(
            nodes2[right_id as int],
        ).valid()) by {
            match nodes2[left_id as int] {
                BVHNode::Leaf { .. } => {},
                BVHNode::Node { .. } => {},
            }
        }
        crate::aabb::lemma_join_valid(
            node_aabb(nodes2[left_id as int]),
            node_aabb(nodes2[right_id as int]),
        );
    }
    nodes.push(BVHNode::Node { aabb: joined, child_l: left_id, child_r: right_id });
    proof {
        broadcast use group_to_multiset_ensures;
        broadcast use vstd::multiset::group_multiset_axioms;

        let aabbs = aabbs_of(shapes@);
        let nodes3 = nodes@;
        // Earlier nodes keep their shape and their well-formedness.
        assert(forall|k: int| 0 <= k < nodes2.len() ==> nodes3[k] == nodes2[k]);
        assert forall|k: int| old(nodes)@.len() <= k < nodes3.len() implies node_wf(
            nodes3,
            aabbs,
            k,
        ) by {
            if k < nodes1.len() {
                lemma_node_wf_prefix(nodes1, nodes2, aabbs, k);
                lemma_node_wf_prefix(nodes2, nodes3, aabbs, k);
            } else if k < nodes2.len() {
                lemma_node_wf_prefix(nodes2, nodes3, aabbs, k);
            } else {
                assert(k == parent as int);
                assert(node_wf(nodes3, aabbs, parent as int));
            }
        }
        // The parent's subtree reports both children's shapes, which is
        // exactly the multiset of the whole range before the call.
        lemma_subtree_shapes_prefix(nodes1, nodes2, left_id as int);
        lemma_subtree_shapes_prefix(nodes2, nodes3, left_id as int);
        lemma_subtree_shapes_prefix(nodes2, nodes3, right_id as int);
        assert(subtree_shapes(nodes3, parent as int) == subtree_shapes(
            nodes3,
            left_id as int,
        ).add(subtree_shapes(nodes3, right_id as int)));
        assert(subtree_shapes(nodes3, parent as int) == old(indices)@.subrange(
            lo as int,
            hi as int,
        ).to_multiset());
        // Stamping: a shape of the range was stamped by whichever child owns
        // it, and the owning leaf sits unchanged in the final arena.
        let sub = old(indices)@.subrange(lo as int, hi as int);
        let sub_l = old(indices)@.subrange(lo as int, mid as int);
        let sub_r = indices1.subrange(mid as int, hi as int);
        assert forall|j: usize| sub.to_multiset().count(j) > 0 implies leaf_owns(
            nodes3,
            shapes@[j as int].bh_node_index_spec() as int,
            j,
        ) by {
            assert(sub.to_multiset().count(j) == sub_l.to_multiset().count(j)
                + sub_r.to_multiset().count(j));
            if sub_r.to_multiset().count(j) > 0 {
                assert(leaf_owns(nodes2, shapes2[j as int].bh_node_index_spec() as int, j));
            } else {
                assert(sub_l.to_multiset().count(j) > 0);
                assert(leaf_owns(nodes1, shapes1[j as int].bh_node_index_spec() as int, j));
                assert(shapes2[j as int].bh_node_index_spec()
                    == shapes1[j as int].bh_node_index_spec());
            }
        }
    }
    parent
}

/// Law (every shape reachable): in a built hierarchy the leaves together own
/// every shape index exactly once — no shape is duplicated or left out.
pub proof fn lemma_every_shape_reachable(bvh: BVH, aabbs: Seq<AABB>, j: usize)
    requires
        bvh.built_over(aabbs),
        0 < aabbs.len() <= usize::MAX,
    ensures
        subtree_shapes(bvh.nodes@, bvh.root()).count(j) == if (j as int) < aabbs.len() {
            1int
        } else {
            0int
        },
{
    lemma_all_indices_count(aabbs.len() as int, j);
}

/// Every shape of a subtree lies inside the bounds of the subtree root.
pub proof fn lemma_subtree_containment(nodes: Seq<BVHNode>, aabbs: Seq<AABB>, i: int, j: usize)
    requires
        bvh_wf(nodes, aabbs),
        0 <= i < nodes.len(),
        subtree_shapes(nodes, i).count(j) > 0,
    ensures
        (j as int) < aabbs.len(),
        box_le(aabbs[j as int], node_aabb(nodes[i])),
    decreases i,
{
    broadcast use group_to_multiset_ensures;
    broadcast use vstd::multiset::group_multiset_axioms;

    assert(node_wf(nodes, aabbs, i));
    match nodes[i] {
        BVHNode::Leaf { aabb, shape_indices } => {
            assert(shape_indices@.contains(j));
            let k = choose|k: int| 0 <= k < shape_indices@.len() && shape_indices@[k] == j;
            lemma_joint_contains_member(aabbs, shape_indices@, k);
        },
        BVHNode::Node { aabb, child_l, child_r } => {
            crate::aabb::lemma_join_contains_operands(
                node_aabb(nodes[child_l as int]),
                node_aabb(nodes[child_r as int]),
            );
            if subtree_shapes(nodes, child_l as int).count(j) > 0 {
                lemma_subtree_containment(nodes, aabbs, child_l as int, j);
                crate::aabb::lemma_box_le_trans(
                    aabbs[j as int],
                    node_aabb(nodes[child_l as int]),
                    aabb,
                );
            } else {
                assert(subtree_shapes(nodes, child_r as int).count(j) > 0);
                lemma_subtree_containment(nodes, aabbs, child_r as int, j);
                crate::aabb::lemma_box_le_trans(
                    aabbs[j as int],
                    node_aabb(nodes[child_r as int]),
                    aabb,
                );
            }
        },
    }
}

/// Law (traversal conservativeness): a shape of the subtree whose own bounds
/// the ray meets is always reported by the descent from the subtree root;
/// pruning by node bounds loses no candidate.
pub proof fn lemma_traverse_conservative(
    nodes: Seq<BVHNode>,
    aabbs: Seq<AABB>,
    ray: Ray,
    i: int,
    j: usize,
)
    requires
        bvh_wf(nodes, aabbs),
        0 <= i < nodes.len(),
        subtree_shapes(nodes, i).count(j) > 0,
        ray_hits(ray, aabbs[j as int]),
    ensures
        hit_indices(nodes, ray, i).contains(j),
    decreases i,
{
    broadcast use group_to_multiset_ensures;
    broadcast use vstd::multiset::group_multiset_axioms;

    lemma_subtree_containment(nodes, aabbs, i, j);
    lemma_ray_hits_monotone(ray, aabbs[j as int], node_aabb(nodes[i]));
    assert(node_wf(nodes, aabbs, i));
    match nodes[i] {
        BVHNode::Leaf { aabb, shape_indices } => {
            assert(shape_indices@.contains(j));
        },
        BVHNode::Node { aabb, child_l, child_r } => {
            let hl = hit_indices(nodes, ray, child_l as int);
            let hr = hit_indices(nodes, ray, child_r as int);
            assert(hit_indices(nodes, ray, i) == hl + hr);
            if subtree_shapes(nodes, child_l as int).count(j) > 0 {
                lemma_traverse_conservative(nodes, aabbs, ray, child_l as int, j);
                let k = choose|k: int| 0 <= k < hl.len() && hl[k] == j;
                assert((hl + hr)[k] == j);
            } else {
                assert(subtree_shapes(nodes, child_r as int).count(j) > 0);
                lemma_traverse_conservative(nodes, aabbs, ray, child_r as int, j);
                let k = choose|k: int| 0 <= k < hr.len() && hr[k] == j;
                assert((hl + hr)[hl.len() + k] == j);
            }
        },
    }
}

/// Law (traversal soundness): the descent reports only shapes owned by some
/// leaf whose bounds the ray meets; no candidate is invented for a region the
/// ray misses.
pub proof fn lemma_hit_indices_sound(nodes: Seq<BVHNode>, ray: Ray, i: int, j: usize)
    requires
        0 <= i < nodes.len(),
        hit_indices(nodes, ray, i).contains(j),
    ensures
        exists|l: int| #[trigger] leaf_owns(nodes, l, j) && ray_hits(ray, node_aabb(nodes[l])),
    decreases i,
{
    if ray_hits(ray, node_aabb(nodes[i])) {
        match nodes[i] {
            BVHNode::Leaf { aabb, shape_indices } => {
                assert(leaf_owns(nodes, i, j) && ray_hits(ray, node_aabb(nodes[i])));
            },
            BVHNode::Node { aabb, child_l, child_r } => {
                if child_l < i && child_r < i {
                    let hl = hit_indices(nodes, ray, child_l as int);
                    let hr = hit_indices(nodes, ray, child_r as int);
                    assert(hit_indices(nodes, ray, i) == hl + hr);
                    let k = choose|k: int|
                        0 <= k < (hl + hr).len() && (hl + hr)[k] == j;
                    if k < hl.len() {
                        assert(hl[k] == j);
                        lemma_hit_indices_sound(nodes, ray, child_l as int, j);
                    } else {
                        assert(hr[k - hl.len()] == j);
                        lemma_hit_indices_sound(nodes, ray, child_r as int, j);
                    }
                } else {
                    assert(hit_indices(nodes, ray, i) =~= Seq::<usize>::empty());
                }
            },
        }
    } else {
        assert(hit_indices(nodes, ray, i) =~= Seq::<usize>::empty());
    }
}

/// The descent reports a shape at most as often as the subtree owns it: with
/// an exactly-once tree, no duplicates and no stray indices.
pub proof fn lemma_hit_indices_within(nodes: Seq<BVHNode>, aabbs: Seq<AABB>, ray: Ray, i: int)
    requires
        bvh_wf(nodes, aabbs),
        0 <= i < nodes.len(),
    ensures
        forall|j: usize|
            #[trigger] hit_indices(nodes, ray, i).to_multiset().count(j) <= subtree_shapes(
                nodes,
                i,
            ).count(j),
    decreases i,
{
    broadcast use group_to_multiset_ensures;
    broadcast use vstd::multiset::group_multiset_axioms;

    assert(node_wf(nodes, aabbs, i));
    let h = hit_indices(nodes, ray, i);
    if ray_hits(ray, node_aabb(nodes[i])) {
        match nodes[i] {
            BVHNode::Leaf { .. } => {},
            BVHNode::Node { aabb, child_l, child_r } => {
                let hl = hit_indices(nodes, ray, child_l as int);
                let hr = hit_indices(nodes, ray, child_r as int);
                assert(h == hl + hr);
                lemma_multiset_commutative(hl, hr);
                lemma_hit_indices_within(nodes, aabbs, ray, child_l as int);
                lemma_hit_indices_within(nodes, aabbs, ray, child_r as int);
            },
        }
    } else {
        assert(h =~= Seq::<usize>::empty());
        assert forall|j: usize| #[trigger] h.to_multiset().count(j) <= subtree_shapes(
            nodes,
            i,
        ).count(j) by {
            if h.to_multiset().count(j) > 0 {
                assert(h.contains(j));
            }
        }
    }
}

/// Depth-first descent from the node at arena index `i`, appending to `out`
/// exactly the indices [`hit_indices`] lists for this subtree and ray.
fn traverse_rec<Shape: Bounded>(
    nodes: &Vec<BVHNode>,
    shapes: &Vec<Shape>,
    ray: &Ray,
    i: usize,
    out: &mut Vec<usize>,
)
    requires
        bvh_wf(nodes@, aabbs_of(shapes@)),
        i < nodes@.len(),
        ray.in_range_spec(),
    ensures
        final(out)@ == old(out)@ + hit_indices(nodes@, *ray, i as int),
    decreases i,
{
    proof {
        assert(node_wf(nodes@, aabbs_of(shapes@), i as int));
    }
    let node_box = node_aabb_of(nodes, i);
    if ray_intersects_aabb(ray, &node_box) {
        match &nodes[i] {
            BVHNode::Leaf { shape_indices, .. } => {
                let m = shape_indices.len();
                let mut k: usize = 0;
                while k < m
                    invariant
                        k <= m,
                        m == shape_indices@.len(),
                        out@ == old(out)@ + shape_indices@.subrange(0, k as int),
                    decreases m - k,
                {
                    let v = shape_indices[k];
                    out.push(v);
                    proof {
                        assert(old(out)@ + shape_indices@.subrange(0, (k + 1) as int) =~= (old(
                            out,
                        )@ + shape_indices@.subrange(0, k as int)).push(v));
                    }
                    k += 1;
                }
                proof {
                    assert(shape_indices@.subrange(0, m as int) =~= shape_indices@);
                    assert(hit_indices(nodes@, *ray, i as int) == shape_indices@);
                }
            },
            BVHNode::Node { child_l, child_r, .. } => {
                let cl = *child_l;
                let cr = *child_r;
                let ghost out0 = out@;
                traverse_rec(nodes, shapes, ray, cl, out);
                traverse_rec(nodes, shapes, ray, cr, out);
                proof {
                    let hl = hit_indices(nodes@, *ray, cl as int);
                    let hr = hit_indices(nodes@, *ray, cr as int);
                    assert(out@ =~= out0 + (hl + hr));
                    assert(hit_indices(nodes@, *ray, i as int) == hl + hr);
                }
            },
        }
    } else {
        proof {
            assert(hit_indices(nodes@, *ray, i as int) =~= Seq::<usize>::empty());
            assert(out@ =~= old(out)@ + hit_indices(nodes@, *ray, i as int));
        }
    }
}

impl BVH {
    /// Traverses the hierarchy with the ray: returns, without duplicates, the
    /// indices of the shapes held by the leaves the descent reaches, which is
    /// exactly [`hit_indices`] at the root. Every shape whose own bounds the
    /// ray meets is among them; an empty hierarchy yields an empty result.
    pub fn traverse<Shape: Bounded>(&self, ray: &Ray, shapes: &Vec<Shape>) -> (hit_ids: Vec<usize>)
        requires
            self.built_over(aabbs_of(shapes@)),
            ray.in_range_spec(),
        ensures
            hit_ids@ == if self.nodes@.len() == 0 {
                Seq::<usize>::empty()
            } else {
                hit_indices(self.nodes@, *ray, self.root())
            },
            hit_ids@.no_duplicates(),
            forall|k: int| 0 <= k < hit_ids@.len() ==> (#[trigger] hit_ids@[k]) < shapes@.len(),
            forall|j: int|
                0 <= j < shapes@.len() && ray_hits(*ray, shapes@[j].aabb_spec())
                    ==> hit_ids@.contains(j as usize),
    {
        let mut out: Vec<usize> = Vec::new();
        let nshapes = shapes.len();
        proof {
            assert(aabbs_of(shapes@).len() == shapes@.len());
            assert(shapes@.len() == nshapes as int);
        }
        if self.nodes.len() == 0 {
            proof {
                assert(out@.no_duplicates());
            }
            return out;
        }
        let root = self.nodes.len() - 1;
        traverse_rec(&self.nodes, shapes, ray, root, &mut out);
        proof {
            broadcast use group_to_multiset_ensures;
            broadcast use vstd::multiset::group_multiset_axioms;

            let nodes = self.nodes@;
            let aabbs = aabbs_of(shapes@);
            let n = shapes@.len() as int;
            let h = hit_indices(nodes, *ray, root as int);
            assert(out@ =~= h);
            lemma_hit_indices_within(nodes, aabbs, *ray, root as int);
            assert forall|k: int| 0 <= k < out@.len() implies (#[trigger] out@[k])
                < shapes@.len() by {
                let j = out@[k];
                assert(h.contains(j));
                assert(h.to_multiset().count(j) > 0);
                lemma_all_indices_count(n, j);
            }
            assert forall|x: usize| out@.to_multiset().contains(x) implies out@.to_multiset().count(
                x,
            ) == 1 by {
                assert(h.to_multiset().count(x) > 0);
                lemma_all_indices_count(n, x);
            }
            out@.lemma_multiset_has_no_duplicates_conv();
            assert forall|j: int|
                0 <= j < shapes@.len() && ray_hits(*ray, shapes@[j].aabb_spec()) implies out@.contains(
                j as usize,
            ) by {
                lemma_all_indices_count(n, j as usize);
                assert(subtree_shapes(nodes, root as int).count(j as usize) == 1);
                assert(aabbs[j] == shapes@[j].aabb_spec());
                lemma_traverse_conservative(nodes, aabbs, *ray, root as int, j as usize);
            }
        }
        out
    }
}

impl crate::bounding_hierarchy::BoundingHierarchy for BVH {
    open spec fn built_over(&self, aabbs: Seq<AABB>) -> bool {
        BVH::built_over(*self, aabbs)
    }

    fn build<Shape: BHShape>(shapes: &mut Vec<Shape>) -> (h: Self) {
        BVH::build(shapes)
    }

    fn traverse<Shape: Bounded>(&self, ray: &Ray, shapes: &Vec<Shape>) -> (hit_ids: Vec<usize>) {
        BVH::traverse(self, ray, shapes)
    }
}

} // verus!
