//! Results of operations that run one after the other.

use vstd::prelude::*;

verus! {

/// What an operation returned: `value`, or the failure where there was one.
pub open spec fn returned<V, E>(value: V, failure: Option<E>) -> Result<V, E> {
    match failure {
        None => Ok(value),
        Some(e) => Err(e),
    }
}

} // verus!
