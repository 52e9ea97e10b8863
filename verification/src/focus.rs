//! Identities of interface nodes and of what can hold keyboard focus.

use vstd::prelude::*;

verus! {

/// The identity of a node of the interface tree: its position in the order in
/// which the nodes were declared.
#[derive(Clone, Copy, Debug, PartialEq, Eq, Hash, Structural)]
pub struct NodeId(pub usize);

/// A handle on the keyboard focus of one node.
#[derive(Clone, Copy, Debug, PartialEq, Eq, Hash, Structural)]
pub struct FocusHandle {
    pub node: NodeId,
}

/// A change of keyboard focus.
///
/// Both sides are set when focus moves from one node to another, only
/// `focused` when nothing held focus before, only `blurred` when focus is
/// cleared.
#[derive(Clone, Copy, Debug, PartialEq, Eq, Structural)]
pub struct FocusEvent {
    pub blurred: Option<FocusHandle>,
    pub focused: Option<FocusHandle>,
}

} // verus!
