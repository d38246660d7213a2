//! Narrow-phase collision decisions for 2D convex shapes: which support
//! point, axis, edge or vertex a circle or polygon test settles on, over
//! order keys of the quantities that the geometry computes.
use vstd::prelude::*;

pub mod order;
pub mod ring;
pub mod select;
pub mod util;

verus! {

} // verus!
