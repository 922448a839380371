//! The errors a graph mutation can be rejected with.  All of them are
//! construction-time validation failures: a rejected call returns one
//! of these and leaves the graph untouched.

use vstd::prelude::*;

verus! {

/// Why a graph mutation was refused.
#[derive(Clone, Copy, Debug, PartialEq, Eq, Structural)]
pub enum GraphError {
    /// `add_node` was given a name that is already registered.
    DuplicateNodeName,
    /// An edge operation named a node that is not registered.
    NodeNotFound,
    /// A slot reference did not resolve: no slot of that name, or an
    /// index past the end of the node's slot list.
    SlotNotFound,
    /// The two slots of a slot edge carry different data kinds.
    SlotKindMismatch,
    /// The target input slot is already fed by another slot edge.
    SlotAlreadyBound,
    /// The identical node edge is already registered.
    EdgeAlreadyExists,
    /// Adding the edge would make the graph cyclic.
    WouldCreateCycle,
}

} // verus!
