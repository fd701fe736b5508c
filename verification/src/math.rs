//! Small arithmetic lemmas about products and fraction comparison, shared by
//! the geometric modules.

use vstd::prelude::*;

verus! {

/// `-(ca * cb) <= a * b <= ca * cb` whenever `|a| <= ca` and `|b| <= cb`.
pub(crate) proof fn lemma_mul_bounds(a: int, b: int, ca: int, cb: int)
    by (nonlinear_arith)
    requires
        -ca <= a <= ca,
        -cb <= b <= cb,
        0 <= ca,
        0 <= cb,
    ensures
        -(ca * cb) <= a * b <= ca * cb,
{
}

/// Multiplying by a non-negative factor preserves `<=`.
pub(crate) proof fn lemma_mul_le_left(m: int, a: int, b: int)
    by (nonlinear_arith)
    requires
        0 <= m,
        a <= b,
    ensures
        m * a <= m * b,
{
}

/// Multiplying by a positive factor preserves `<`.
pub(crate) proof fn lemma_mul_lt_left(m: int, a: int, b: int)
    by (nonlinear_arith)
    requires
        0 < m,
        a < b,
    ensures
        m * a < m * b,
{
}

/// A product that is non-negative, with a positive right factor, has a
/// non-negative left factor.
pub(crate) proof fn lemma_nonneg_factor(a: int, b: int)
    by (nonlinear_arith)
    requires
        0 < b,
        0 <= a * b,
    ensures
        0 <= a,
{
}

/// Transitivity of the division-free comparison of fractions: if
/// `a / b <= c / d` and `c / d <= e / f` with positive denominators, then
/// `a / b <= e / f`, each comparison written with cross products.
pub(crate) proof fn lemma_frac_le_trans(a: int, b: int, c: int, d: int, e: int, f: int)
    by (nonlinear_arith)
    requires
        0 < b,
        0 < d,
        0 < f,
        a * d <= c * b,
        c * f <= e * d,
    ensures
        a * f <= e * b,
{
}

} // verus!
