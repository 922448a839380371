//! Edges of the render graph.  Nodes are addressed by their position
//! in the graph's node list, resolved once from their names at
//! registration time.

use vstd::prelude::*;

verus! {

/// A dependency between two registered nodes.
///
/// A `NodeEdge` only orders its endpoints.  A `SlotEdge` additionally
/// declares that the output slot `source_index` of `source` feeds the
/// input slot `target_index` of `target`; it orders the endpoints just
/// as a node edge does.
#[derive(Clone, Copy, Debug, PartialEq, Eq, Structural)]
pub enum Edge {
    NodeEdge { source: usize, target: usize },
    SlotEdge { source: usize, source_index: usize, target: usize, target_index: usize },
}

/// The node an edge leaves from.
pub open spec fn edge_source(e: Edge) -> usize {
    match e {
        Edge::NodeEdge { source, .. } => source,
        Edge::SlotEdge { source, .. } => source,
    }
}

/// The node an edge points at.
pub open spec fn edge_target(e: Edge) -> usize {
    match e {
        Edge::NodeEdge { target, .. } => target,
        Edge::SlotEdge { target, .. } => target,
    }
}

/// Whether an edge carries a data binding.
pub open spec fn is_slot_edge(e: Edge) -> bool {
    e matches Edge::SlotEdge { .. }
}

impl Edge {
    /// The node this edge leaves from.
    pub fn source(&self) -> (r: usize)
        ensures
            r == edge_source(*self),
    {
        match self {
            Edge::NodeEdge { source, .. } => *source,
            Edge::SlotEdge { source, .. } => *source,
        }
    }

    /// The node this edge points at.
    pub fn target(&self) -> (r: usize)
        ensures
            r == edge_target(*self),
    {
        match self {
            Edge::NodeEdge { target, .. } => *target,
            Edge::SlotEdge { target, .. } => *target,
        }
    }
}

} // verus!
