//! Views of the standard containers that carry the library's values.

use vstd::prelude::*;

verus! {

/// The mathematical value of a `Result`: the view of what it holds, on
/// either side.
pub open spec fn result_view<T: DeepView, E: DeepView>(r: Result<T, E>) -> Result<T::V, E::V> {
    match r {
        Ok(value) => Ok(value.deep_view()),
        Err(error) => Err(error.deep_view()),
    }
}

} // verus!
