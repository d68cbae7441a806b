//! Outcomes of functions, compared with what their models say.
use vstd::prelude::*;

verus! {

/// The value that was returned, or the error, is the expected one.
pub open spec fn agrees<T: View, E: View>(
    result: Result<T, E>,
    expected: Result<T::V, E::V>,
) -> bool {
    match result {
        Ok(value) => expected == Ok::<T::V, E::V>(value@),
        Err(error) => expected == Err::<T::V, E::V>(error@),
    }
}

} // verus!
