//! Inputs of the alpha-over merge.

use vstd::prelude::*;

verus! {

/// Type id of the merge node, whose shader a merge job runs.
pub const TYPE_ID: &'static str = "org.olivevideoeditor.Olive.merge";

/// The backdrop.
pub const BASE_INPUT: &'static str = "base_in";

/// The layer drawn over the backdrop.
pub const BLEND_INPUT: &'static str = "blend_in";

} // verus!
