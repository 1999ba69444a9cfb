//! Copying values that borrow from a buffer into values that may live as
//! long as another lifetime: the traits a borrowed type implements to give
//! its owned-for-longer counterpart.
use vstd::prelude::*;

verus! {

/// A type borrowing for `'old`, with the same type borrowing for a longer `'new`.
pub trait MustOutlive<'old> {
    type WithLifetime<'new: 'old>: Clone;
}

/// A copy of a borrowed value that lives for `'new`.
pub trait DeepClone<'old, 'new: 'old>: MustOutlive<'old> {
    fn deep_clone(&self) -> Self::WithLifetime<'new>;
}

} // verus!
