//! A verified render-graph construction library.
//!
//! A render graph is a directed acyclic graph of named work units
//! ("nodes"), each exposing typed input and output ports ("slots").
//! Nodes are connected either by pure ordering dependencies (node
//! edges) or by typed data bindings (slot edges).  Every mutation is
//! validated before it takes effect: unknown names, slot kind
//! mismatches, duplicate edges, doubly bound inputs and cycles are all
//! rejected, and a rejected call leaves the graph exactly as it was.

pub mod base_graph;
pub mod camera;
pub mod edge;
pub mod error;
pub mod graph;
pub mod laws;
pub mod model;
pub mod node;
pub mod reach;
pub mod slot;

pub use base_graph::BaseRenderGraphBuilder;
pub use base_graph::BaseRenderGraphConfig;
pub use edge::Edge;
pub use graph::NodeEntry;
pub use graph::NodePorts;
pub use graph::RenderGraph;
pub use error::GraphError;
pub use slot::DataKind;
pub use slot::SlotDescriptor;
pub use slot::SlotLabel;
