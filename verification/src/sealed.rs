//! Bounds between constant lengths, stated where the lengths are used.

use vstd::prelude::*;

verus! {

/// A pair of constant lengths of which the first is to be at least the
/// second.
pub struct Assert<const L: usize, const R: usize>;

impl<const L: usize, const R: usize> Assert<L, R> {
    /// Returns by how much `L` is greater than `R`.
    pub fn greater_eq() -> (excess: usize)
        requires
            L >= R,
        ensures
            excess == L - R,
    {
        L - R
    }
}

/// States that `N` is at least `MIN`. Whoever calls this has to show it.
pub(crate) fn greater_than_eq<const N: usize, const MIN: usize>()
    requires
        N >= MIN,
{
    let _ = Assert::<N, MIN>::greater_eq();
}

} // verus!
