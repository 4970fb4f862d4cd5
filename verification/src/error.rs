//! Errors of graph edits and evaluations.

use vstd::prelude::*;

verus! {

/// Why an operation was refused.
#[derive(PartialEq, Eq, Debug)]
pub enum Error {
    /// A node, an input or an endpoint does not exist.
    NotFound,
    /// The operation is not possible in the present state; a cancelled
    /// evaluation ends this way.
    State,
    /// The operation failed for the stated reason.
    Failed(String),
}

} // verus!
