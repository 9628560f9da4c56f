//! Caller-assigned node handles and the implicit cursor register.

use vstd::prelude::*;

verus! {

/// An opaque handle for a slot in the remote tree. Handles are assigned by
/// the caller; this crate never checks that a handle refers to a live node.
#[derive(Debug, Clone, Copy, PartialEq, Eq, Structural, Hash)]
pub struct NodeId(pub u32);

/// A node reference: either the remote interpreter's implicit cursor (the
/// last node created or navigated to) or an explicit caller-assigned handle.
///
/// Referring to the cursor costs no operand bytes on the wire; an explicit
/// handle costs four bytes plus a one-bit discriminant in the tag byte.
#[derive(Debug, Clone, Copy, PartialEq, Eq, Structural, Hash)]
pub enum MaybeId {
    /// The last node that was created or navigated to.
    LastNode,
    /// A node that was created and stored with an id.
    Node(NodeId),
}

impl MaybeId {
    /// Number of operand bytes this reference occupies on the wire.
    pub open spec fn spec_encoded_size(self) -> int {
        match self {
            MaybeId::LastNode => 0,
            MaybeId::Node(_) => 4,
        }
    }

    /// The wire discriminant: true when an explicit handle follows.
    pub open spec fn is_node(self) -> bool {
        self is Node
    }

    /// Number of operand bytes this reference occupies on the wire.
    pub fn encoded_size(&self) -> (r: u8)
        ensures
            r as int == self.spec_encoded_size(),
    {
        match self {
            MaybeId::LastNode => 0,
            MaybeId::Node(_) => 4,
        }
    }
}

} // verus!
