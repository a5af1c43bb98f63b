//! What a `Result` says, by the views of its two sides.
use vstd::prelude::*;

verus! {

/// The view of a `Result`.
pub open spec fn outcome<T: DeepView, E: DeepView>(r: Result<T, E>) -> Result<T::V, E::V> {
    match r {
        Ok(value) => Ok(value.deep_view()),
        Err(error) => Err(error.deep_view()),
    }
}

} // verus!
