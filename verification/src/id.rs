//! Node identifiers.

use vstd::prelude::*;

verus! {

/// Identifier of a node in the widget arena.
#[derive(Clone, Copy, Debug, PartialEq, Eq, Hash, Structural)]
pub struct NodeId(pub u64);

/// Application identity unique within an explicit arena subtree.
#[derive(Clone, Debug, PartialEq, Eq)]
pub struct SemanticIdentity {
    /// Scope root, which may itself be detached.
    pub scope: NodeId,
    /// Application-defined key independent of structural child keys.
    pub key: String,
}

} // verus!
