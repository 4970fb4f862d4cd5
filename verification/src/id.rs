//! Node identity.

use vstd::prelude::*;

verus! {

/// Identifies a node within its graph.
#[derive(Clone, Copy, PartialEq, Eq, Structural, PartialOrd, Ord, Hash, Debug)]
pub struct NodeId(pub u64);

/// The id that no node has: jobs that no graph node evaluates carry it.
pub open spec fn invalid_id() -> NodeId {
    NodeId(u64::MAX)
}

impl NodeId {
    /// The id that no node has.
    pub fn invalid() -> (r: NodeId)
        ensures
            r == invalid_id(),
    {
        NodeId(u64::MAX)
    }
}

} // verus!
