//! The result of one rewrite step: the (possibly unchanged) value and
//! whether the step mutated anything.

use vstd::prelude::*;

verus! {

/// A rewrite result.  Rewrite engines rely on `transformed` being `false`
/// only when `data` is the unchanged input, to decide whether another
/// fixpoint pass is warranted without comparing trees structurally.
#[derive(Debug)]
pub struct Transformed<T> {
    pub data: T,
    pub transformed: bool,
}

impl<T> Transformed<T> {
    /// Wraps a value that a rewrite step changed.
    pub fn yes(data: T) -> (r: Self)
        ensures
            r.data == data,
            r.transformed,
    {
        Transformed { data, transformed: true }
    }

    /// Wraps a value that a rewrite step left untouched.
    pub fn no(data: T) -> (r: Self)
        ensures
            r.data == data,
            !r.transformed,
    {
        Transformed { data, transformed: false }
    }
}

} // verus!
