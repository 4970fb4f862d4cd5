//! Flag bits of a node input.

use vstd::prelude::*;

verus! {

/// An array of values; edges name an element.
pub const ARRAY: u32 = 1;

/// The value cannot be keyframed.
pub const NOT_KEYFRAMABLE: u32 = 2;

/// No edge may end at the input.
pub const NOT_CONNECTABLE: u32 = 4;

/// The input is not shown to the user.
pub const HIDDEN: u32 = 8;

} // verus!
