//! Node identifiers and per-node metadata.

use vstd::prelude::*;

verus! {

/// Identifier of a raft node. Identifiers are totally ordered.
pub type NodeId = u64;

/// Per-node metadata of a minimal configuration: it carries nothing.
#[derive(Clone, Copy, Debug, PartialEq, Eq, Structural, PartialOrd, Ord, Hash)]
pub struct EmptyNode {}

/// The node metadata type used throughout the library.
pub type Node = EmptyNode;

impl EmptyNode {
    /// The only value of this type.
    pub fn new() -> (r: Self)
        ensures
            r == (EmptyNode {}),
    {
        EmptyNode {}
    }
}

impl Default for EmptyNode {
    fn default() -> (r: Self)
        ensures
            r == (EmptyNode {}),
    {
        EmptyNode {}
    }
}

} // verus!
