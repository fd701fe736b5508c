//! The coordinate axes.

use vstd::prelude::*;

verus! {

/// One of the three coordinate axes of three-dimensional space.
#[derive(Clone, Copy, PartialEq, Eq, Structural, Debug)]
pub enum Axis {
    /// The x axis.
    X,
    /// The y axis.
    Y,
    /// The z axis.
    Z,
}

} // verus!
