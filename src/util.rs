//! Mapping of library values into another space, such as a renderer's.
use vstd::prelude::*;

verus! {

/// A map from values of type `T` into some other space.
pub trait Transform<T> {
    type Output;

    fn transform(&self, item: T) -> Self::Output;
}

} // verus!
