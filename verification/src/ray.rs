//! Rays and the ray/box intersection primitive.

use vstd::prelude::*;

use crate::aabb::{AABB, box_le};
use crate::math::{
    lemma_frac_le_trans, lemma_mul_bounds, lemma_mul_le_left, lemma_mul_lt_left,
    lemma_nonneg_factor,
};
use crate::vector::{MAX_COORD, Vec3};

verus! {

/// A ray: every point `origin + t * direction` with `t >= 0`. A zero
/// direction degenerates to the single point `origin`.
#[derive(Clone, Copy, PartialEq, Eq, Structural, Debug)]
pub struct Ray {
    /// The starting point of the ray.
    pub origin: Vec3,
    /// The direction of the ray; it need not be normalized.
    pub direction: Vec3,
}

impl Ray {
    /// All six coordinates lie in `[-MAX_COORD, MAX_COORD]`.
    pub open spec fn in_range_spec(self) -> bool {
        self.origin.in_range_spec() && self.direction.in_range_spec()
    }

    /// Builds the ray with the given origin and direction.
    pub fn new(origin: Vec3, direction: Vec3) -> (r: Ray)
        ensures
            r == (Ray { origin, direction }),
    {
        Ray { origin, direction }
    }

    /// Reports whether all six coordinates lie in `[-MAX_COORD, MAX_COORD]`.
    pub fn in_range(&self) -> (r: bool)
        ensures
            r == self.in_range_spec(),
    {
        self.origin.in_range() && self.direction.in_range()
    }
}

/// `a / b <= c / d` for positive denominators `b` and `d`, written without
/// division as a cross product comparison.
pub open spec fn frac_le(a: int, b: int, c: int, d: int) -> bool {
    a * d <= c * b
}

/// Along one axis with origin `o`, direction `d` and slab `[lo, hi]`, the
/// ray point with parameter `n / m` stays inside the slab; every term is
/// scaled by the denominator `m` so no division appears.
pub open spec fn axis_ok(o: int, d: int, lo: int, hi: int, n: int, m: int) -> bool {
    m * lo <= m * o + n * d <= m * hi
}

/// The ray point with rational parameter `n / m` lies in the box `b`.
pub open spec fn ray_point_in_box(r: Ray, b: AABB, n: int, m: int) -> bool {
    &&& axis_ok(r.origin.x as int, r.direction.x as int, b.min.x as int, b.max.x as int, n, m)
    &&& axis_ok(r.origin.y as int, r.direction.y as int, b.min.y as int, b.max.y as int, n, m)
    &&& axis_ok(r.origin.z as int, r.direction.z as int, b.min.z as int, b.max.z as int, n, m)
}

/// The ray meets the box: some point of the ray, at a rational parameter
/// `n / m` with `n >= 0` and `m > 0`, lies in the box.
pub open spec fn ray_hits(r: Ray, b: AABB) -> bool {
    exists|n: int, m: int| 0 <= n && 0 < m && #[trigger] ray_point_in_box(r, b, n, m)
}

/// Law: a ray that meets a box also meets every box containing it. Traversal
/// relies on this to prune subtrees soundly.
pub proof fn lemma_ray_hits_monotone(r: Ray, inner: AABB, outer: AABB)
    requires
        box_le(inner, outer),
        ray_hits(r, inner),
    ensures
        ray_hits(r, outer),
{
    let (n, m) = choose|n: int, m: int| 0 <= n && 0 < m && #[trigger] ray_point_in_box(
        r,
        inner,
        n,
        m,
    );
    lemma_mul_le_left(m, outer.min.x as int, inner.min.x as int);
    lemma_mul_le_left(m, inner.max.x as int, outer.max.x as int);
    lemma_mul_le_left(m, outer.min.y as int, inner.min.y as int);
    lemma_mul_le_left(m, inner.max.y as int, outer.max.y as int);
    lemma_mul_le_left(m, outer.min.z as int, inner.min.z as int);
    lemma_mul_le_left(m, inner.max.z as int, outer.max.z as int);
    assert(ray_point_in_box(r, outer, n, m));
}

/// The running intersection of the per-axis parameter intervals during the
/// slab test: a lower bound fraction `lo_num / lo_den`, and, once some axis
/// has bounded the parameter from above, an upper bound fraction
/// `hi_num / hi_den`.
struct Clip {
    lo_num: i128,
    lo_den: i128,
    hi_num: i128,
    hi_den: i128,
    bounded: bool,
}

/// The interval bounds stay small enough that every cross product fits
/// comfortably in `i128`, the lower bound never drops below zero, and the
/// denominators stay positive.
spec fn clip_wf(c: Clip) -> bool {
    &&& 0 <= c.lo_num <= 2 * (MAX_COORD as int)
    &&& 0 < c.lo_den <= MAX_COORD as int
    &&& -2 * (MAX_COORD as int) <= c.hi_num <= 2 * (MAX_COORD as int)
    &&& 0 < c.hi_den <= MAX_COORD as int
}

/// The parameter `n / m` lies in the interval `c` describes.
spec fn clip_contains(c: Clip, n: int, m: int) -> bool {
    &&& frac_le(c.lo_num as int, c.lo_den as int, n, m)
    &&& (c.bounded ==> frac_le(n, m, c.hi_num as int, c.hi_den as int))
}

/// Equivalence of the slab condition along one axis with two division-free
/// fraction comparisons, after normalizing the denominator to `|d| > 0`.
proof fn lemma_axis_ok_fracs(
    o: int,
    d: int,
    lo: int,
    hi: int,
    n: int,
    m: int,
    aln: int,
    ald: int,
    ahn: int,
    ahd: int,
)
    requires
        0 < m,
        d != 0,
        d > 0 ==> aln == lo - o && ald == d && ahn == hi - o && ahd == d,
        d < 0 ==> aln == o - hi && ald == -d && ahn == o - lo && ahd == -d,
    ensures
        axis_ok(o, d, lo, hi, n, m) <==> (frac_le(aln, ald, n, m) && frac_le(n, m, ahn, ahd)),
{
    if d > 0 {
        assert((lo - o) * m == m * lo - m * o) by (nonlinear_arith);
        assert((hi - o) * m == m * hi - m * o) by (nonlinear_arith);
    } else {
        assert((o - hi) * m == m * o - m * hi) by (nonlinear_arith);
        assert((o - lo) * m == m * o - m * lo) by (nonlinear_arith);
        assert(n * (-d) == -(n * d)) by (nonlinear_arith);
    }
}

/// Intersects the running parameter interval with the slab of one axis.
/// Returns `true` in the first component when the axis alone rules out every
/// parameter, in which case the interval is returned unchanged.
fn clip_axis(c: Clip, o: i64, d: i64, lo: i64, hi: i64) -> (res: (bool, Clip))
    requires
        clip_wf(c),
        -MAX_COORD <= o <= MAX_COORD,
        -MAX_COORD <= d <= MAX_COORD,
        -MAX_COORD <= lo <= MAX_COORD,
        -MAX_COORD <= hi <= MAX_COORD,
    ensures
        res.0 ==> forall|n: int, m: int|
            0 < m ==> !axis_ok(o as int, d as int, lo as int, hi as int, n, m),
        !res.0 ==> clip_wf(res.1),
        !res.0 ==> (res.1.bounded <==> (c.bounded || d != 0)),
        !res.0 ==> forall|n: int, m: int|
            0 < m ==> (#[trigger] clip_contains(res.1, n, m) <==> (clip_contains(c, n, m)
                && axis_ok(o as int, d as int, lo as int, hi as int, n, m))),
{
    if d == 0 {
        if lo <= o && o <= hi {
            proof {
                assert forall|n: int, m: int| 0 < m implies (#[trigger] clip_contains(c, n, m)
                    <==> (clip_contains(c, n, m) && axis_ok(
                    o as int,
                    0,
                    lo as int,
                    hi as int,
                    n,
                    m,
                ))) by {
                    lemma_mul_le_left(m, lo as int, o as int);
                    lemma_mul_le_left(m, o as int, hi as int);
                }
            }
            (false, c)
        } else {
            proof {
                assert forall|n: int, m: int| 0 < m implies !axis_ok(
                    o as int,
                    0,
                    lo as int,
                    hi as int,
                    n,
                    m,
                ) by {
                    if o < lo {
                        lemma_mul_lt_left(m, o as int, lo as int);
                    } else {
                        lemma_mul_lt_left(m, hi as int, o as int);
                    }
                }
            }
            (true, c)
        }
    } else {
        let oi = o as i128;
        let di = d as i128;
        let loi = lo as i128;
        let hii = hi as i128;
        let (aln, ald, ahn, ahd) = if d > 0 {
            (loi - oi, di, hii - oi, di)
        } else {
            (oi - hii, -di, oi - loi, -di)
        };
        proof {
            assert forall|n: int, m: int| 0 < m implies (axis_ok(
                o as int,
                d as int,
                lo as int,
                hi as int,
                n,
                m,
            ) <==> (frac_le(aln as int, ald as int, n, m) && frac_le(
                n,
                m,
                ahn as int,
                ahd as int,
            ))) by {
                lemma_axis_ok_fracs(
                    o as int,
                    d as int,
                    lo as int,
                    hi as int,
                    n,
                    m,
                    aln as int,
                    ald as int,
                    ahn as int,
                    ahd as int,
                );
            }
            lemma_mul_bounds(
                aln as int,
                c.lo_den as int,
                2 * (MAX_COORD as int),
                MAX_COORD as int,
            );
            lemma_mul_bounds(
                c.lo_num as int,
                ald as int,
                2 * (MAX_COORD as int),
                MAX_COORD as int,
            );
            lemma_mul_bounds(
                ahn as int,
                c.hi_den as int,
                2 * (MAX_COORD as int),
                MAX_COORD as int,
            );
            lemma_mul_bounds(
                c.hi_num as int,
                ahd as int,
                2 * (MAX_COORD as int),
                MAX_COORD as int,
            );
        }
        // New lower bound: the larger of the current lower bound and the
        // axis lower bound.
        let take_axis_lo = aln * c.lo_den >= c.lo_num * ald;
        let (nln, nld) = if take_axis_lo {
            (aln, ald)
        } else {
            (c.lo_num, c.lo_den)
        };
        proof {
            if take_axis_lo {
                lemma_nonneg_factor(aln as int, c.lo_den as int);
            }
            assert forall|n: int, m: int| 0 < m implies (frac_le(nln as int, nld as int, n, m)
                <==> (frac_le(c.lo_num as int, c.lo_den as int, n, m) && frac_le(
                aln as int,
                ald as int,
                n,
                m,
            ))) by {
                if take_axis_lo {
                    if frac_le(aln as int, ald as int, n, m) {
                        lemma_frac_le_trans(
                            c.lo_num as int,
                            c.lo_den as int,
                            aln as int,
                            ald as int,
                            n,
                            m,
                        );
                    }
                } else {
                    if frac_le(c.lo_num as int, c.lo_den as int, n, m) {
                        lemma_frac_le_trans(
                            aln as int,
                            ald as int,
                            c.lo_num as int,
                            c.lo_den as int,
                            n,
                            m,
                        );
                    }
                }
            }
        }
        // New upper bound: the smaller of the current upper bound, if any,
        // and the axis upper bound.
        let take_axis_hi = !c.bounded || ahn * c.hi_den <= c.hi_num * ahd;
        let (nhn, nhd) = if take_axis_hi {
            (ahn, ahd)
        } else {
            (c.hi_num, c.hi_den)
        };
        proof {
            assert forall|n: int, m: int| 0 < m implies (frac_le(n, m, nhn as int, nhd as int)
                <==> ((c.bounded ==> frac_le(n, m, c.hi_num as int, c.hi_den as int)) && frac_le(
                n,
                m,
                ahn as int,
                ahd as int,
            ))) by {
                if c.bounded {
                    if take_axis_hi {
                        if frac_le(n, m, ahn as int, ahd as int) {
                            lemma_frac_le_trans(
                                n,
                                m,
                                ahn as int,
                                ahd as int,
                                c.hi_num as int,
                                c.hi_den as int,
                            );
                        }
                    } else {
                        if frac_le(n, m, c.hi_num as int, c.hi_den as int) {
                            lemma_frac_le_trans(
                                n,
                                m,
                                c.hi_num as int,
                                c.hi_den as int,
                                ahn as int,
                                ahd as int,
                            );
                        }
                    }
                }
            }
        }
        (false, Clip { lo_num: nln, lo_den: nld, hi_num: nhn, hi_den: nhd, bounded: true })
    }
}

/// Tests whether the ray meets the box, by intersecting the three per-axis
/// parameter intervals of the slab method with `[0, infinity)`. The result is
/// exactly [`ray_hits`]: no hit is missed and none is invented.
pub fn ray_intersects_aabb(ray: &Ray, aabb: &AABB) -> (hit: bool)
    requires
        ray.in_range_spec(),
        aabb.in_range(),
    ensures
        hit == ray_hits(*ray, *aabb),
{
    let c0 = Clip { lo_num: 0, lo_den: 1, hi_num: 0, hi_den: 1, bounded: false };
    proof {
        assert forall|n: int, m: int| 0 < m implies (#[trigger] clip_contains(c0, n, m) <==> n
            >= 0) by {
            assert(frac_le(0, 1, n, m) == (0 * m <= n * 1));
            assert(0 * m == 0) by (nonlinear_arith);
        }
    }
    let (miss_x, c1) = clip_axis(
        c0,
        ray.origin.x,
        ray.direction.x,
        aabb.min.x,
        aabb.max.x,
    );
    if miss_x {
        proof {
            assert forall|n: int, m: int| 0 <= n && 0 < m implies !ray_point_in_box(
                *ray,
                *aabb,
                n,
                m,
            ) by {}
        }
        return false;
    }
    let (miss_y, c2) = clip_axis(
        c1,
        ray.origin.y,
        ray.direction.y,
        aabb.min.y,
        aabb.max.y,
    );
    if miss_y {
        proof {
            assert forall|n: int, m: int| 0 <= n && 0 < m implies !ray_point_in_box(
                *ray,
                *aabb,
                n,
                m,
            ) by {}
        }
        return false;
    }
    let (miss_z, c3) = clip_axis(
        c2,
        ray.origin.z,
        ray.direction.z,
        aabb.min.z,
        aabb.max.z,
    );
    if miss_z {
        proof {
            assert forall|n: int, m: int| 0 <= n && 0 < m implies !ray_point_in_box(
                *ray,
                *aabb,
                n,
                m,
            ) by {}
        }
        return false;
    }
    proof {
        lemma_mul_bounds(c3.lo_num as int, c3.hi_den as int, 2 * (MAX_COORD as int), MAX_COORD as int);
        lemma_mul_bounds(c3.hi_num as int, c3.lo_den as int, 2 * (MAX_COORD as int), MAX_COORD as int);
    }
    if c3.bounded && c3.lo_num * c3.hi_den > c3.hi_num * c3.lo_den {
        proof {
            assert forall|n: int, m: int| 0 <= n && 0 < m implies !ray_point_in_box(
                *ray,
                *aabb,
                n,
                m,
            ) by {
                if ray_point_in_box(*ray, *aabb, n, m) {
                    assert(clip_contains(c3, n, m));
                    lemma_frac_le_trans(
                        c3.lo_num as int,
                        c3.lo_den as int,
                        n,
                        m,
                        c3.hi_num as int,
                        c3.hi_den as int,
                    );
                }
            }
        }
        false
    } else {
        proof {
            let n0 = c3.lo_num as int;
            let m0 = c3.lo_den as int;
            assert(frac_le(n0, m0, n0, m0));
            assert(clip_contains(c3, n0, m0));
            assert(n0 >= 0 && ray_point_in_box(*ray, *aabb, n0, m0));
        }
        true
    }
}

} // verus!
