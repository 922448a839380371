use render_graph::DataKind;
use render_graph::Edge;
use render_graph::GraphError;
use render_graph::NodePorts;
use render_graph::RenderGraph;
use render_graph::SlotDescriptor;
use render_graph::SlotLabel;

fn ports(inputs: Vec<SlotDescriptor>, outputs: Vec<SlotDescriptor>) -> NodePorts {
    NodePorts { inputs, outputs }
}

fn plain() -> NodePorts {
    ports(vec![], vec![])
}

#[test]
fn register_then_lookup() {
    let mut g = RenderGraph::new();
    let outs = vec![SlotDescriptor::new("texture", DataKind::Texture)];
    assert_eq!(g.add_node("producer", ports(vec![], outs)), Ok(()));
    let entry = g.get_node("producer").expect("registered node must be found");
    assert_eq!(entry.name, "producer");
    assert_eq!(entry.inputs.len(), 0);
    assert_eq!(entry.outputs.len(), 1);
    assert_eq!(entry.outputs[0].name, "texture");
    assert_eq!(entry.outputs[0].kind, DataKind::Texture);
    assert!(g.get_node("consumer").is_none());
}

#[test]
fn duplicate_name_refused_and_prior_entry_kept() {
    let mut g = RenderGraph::new();
    let outs = vec![SlotDescriptor::new("texture", DataKind::Texture)];
    assert_eq!(g.add_node("producer", ports(vec![], outs)), Ok(()));
    let other = vec![SlotDescriptor::new("buffer", DataKind::Buffer)];
    assert_eq!(
        g.add_node("producer", ports(vec![], other)),
        Err(GraphError::DuplicateNodeName)
    );
    assert_eq!(g.node_count(), 1);
    let entry = g.get_node("producer").unwrap();
    assert_eq!(entry.outputs[0].name, "texture");
    assert_eq!(entry.outputs[0].kind, DataKind::Texture);
}

#[test]
fn node_edge_between_existing_nodes() {
    let mut g = RenderGraph::new();
    assert_eq!(g.add_node("a", plain()), Ok(()));
    assert_eq!(g.add_node("b", plain()), Ok(()));
    assert_eq!(g.add_node_edge("a", "b"), Ok(()));
    let a = g.node_index("a").unwrap();
    let b = g.node_index("b").unwrap();
    let into_b = g.input_edges("b").unwrap();
    assert_eq!(into_b.len(), 1);
    assert_eq!(into_b[0], Edge::NodeEdge { source: a, target: b });
}

#[test]
fn node_edge_unknown_endpoint() {
    let mut g = RenderGraph::new();
    assert_eq!(g.add_node("a", plain()), Ok(()));
    assert_eq!(g.add_node_edge("a", "ghostly"), Err(GraphError::NodeNotFound));
    assert_eq!(g.add_node_edge("ghostly", "a"), Err(GraphError::NodeNotFound));
    assert_eq!(g.edge_count(), 0);
}

#[test]
fn reverse_edge_would_close_cycle() {
    let mut g = RenderGraph::new();
    assert_eq!(g.add_node("a", plain()), Ok(()));
    assert_eq!(g.add_node("b", plain()), Ok(()));
    assert_eq!(g.add_node_edge("a", "b"), Ok(()));
    assert_eq!(g.add_node_edge("b", "a"), Err(GraphError::WouldCreateCycle));
    assert_eq!(g.edge_count(), 1);
}

#[test]
fn self_edge_refused() {
    let mut g = RenderGraph::new();
    assert_eq!(g.add_node("a", plain()), Ok(()));
    assert_eq!(g.add_node_edge("a", "a"), Err(GraphError::WouldCreateCycle));
}

#[test]
fn node_edge_idempotence() {
    let mut g = RenderGraph::new();
    assert_eq!(g.add_node("a", plain()), Ok(()));
    assert_eq!(g.add_node("b", plain()), Ok(()));
    assert_eq!(g.add_node_edge("a", "b"), Ok(()));
    assert_eq!(g.edge_count(), 1);
    assert_eq!(g.add_node_edge("a", "b"), Err(GraphError::EdgeAlreadyExists));
    assert_eq!(g.edge_count(), 1);
}

#[test]
fn input_bound_at_most_once() {
    let mut g = RenderGraph::new();
    let tex = || vec![SlotDescriptor::new("texture", DataKind::Texture)];
    assert_eq!(g.add_node("first", ports(vec![], tex())), Ok(()));
    assert_eq!(g.add_node("second", ports(vec![], tex())), Ok(()));
    let ins = vec![SlotDescriptor::new("color", DataKind::Texture)];
    assert_eq!(g.add_node("sink", ports(ins, vec![])), Ok(()));
    assert_eq!(
        g.add_slot_edge("first", SlotLabel::named("texture"), "sink", SlotLabel::named("color")),
        Ok(())
    );
    assert_eq!(
        g.add_slot_edge("second", SlotLabel::named("texture"), "sink", SlotLabel::named("color")),
        Err(GraphError::SlotAlreadyBound)
    );
    assert_eq!(
        g.add_slot_edge("first", SlotLabel::named("texture"), "sink", SlotLabel::named("color")),
        Err(GraphError::SlotAlreadyBound)
    );
}

#[test]
fn kind_mismatch_refused() {
    let mut g = RenderGraph::new();
    let outs = vec![SlotDescriptor::new("texture", DataKind::Texture)];
    assert_eq!(g.add_node("producer", ports(vec![], outs)), Ok(()));
    let ins = vec![SlotDescriptor::new("staging", DataKind::Buffer)];
    assert_eq!(g.add_node("consumer", ports(ins, vec![])), Ok(()));
    assert_eq!(
        g.add_slot_edge(
            "producer",
            SlotLabel::named("texture"),
            "consumer",
            SlotLabel::named("staging"),
        ),
        Err(GraphError::SlotKindMismatch)
    );
    assert_eq!(g.edge_count(), 0);
}

#[test]
fn kind_mismatch_by_index_labels() {
    let mut g = RenderGraph::new();
    let outs = vec![
        SlotDescriptor::new("buffer", DataKind::Buffer),
        SlotDescriptor::new("sampler", DataKind::Sampler),
    ];
    assert_eq!(g.add_node("producer", ports(vec![], outs)), Ok(()));
    let ins = vec![SlotDescriptor::new("sampler_in", DataKind::Sampler)];
    assert_eq!(g.add_node("consumer", ports(ins, vec![])), Ok(()));
    assert_eq!(
        g.add_slot_edge("producer", SlotLabel::Index(0), "consumer", SlotLabel::Index(0)),
        Err(GraphError::SlotKindMismatch)
    );
    assert_eq!(
        g.add_slot_edge("producer", SlotLabel::Index(1), "consumer", SlotLabel::Index(0)),
        Ok(())
    );
}

#[test]
fn slot_not_found() {
    let mut g = RenderGraph::new();
    let outs = vec![SlotDescriptor::new("texture", DataKind::Texture)];
    assert_eq!(g.add_node("producer", ports(vec![], outs)), Ok(()));
    let ins = vec![SlotDescriptor::new("color", DataKind::Texture)];
    assert_eq!(g.add_node("consumer", ports(ins, vec![])), Ok(()));
    assert_eq!(
        g.add_slot_edge(
            "producer",
            SlotLabel::named("missing"),
            "consumer",
            SlotLabel::named("color"),
        ),
        Err(GraphError::SlotNotFound)
    );
    assert_eq!(
        g.add_slot_edge("producer", SlotLabel::Index(1), "consumer", SlotLabel::named("color")),
        Err(GraphError::SlotNotFound)
    );
    assert_eq!(
        g.add_slot_edge(
            "producer",
            SlotLabel::named("texture"),
            "consumer",
            SlotLabel::named("missing"),
        ),
        Err(GraphError::SlotNotFound)
    );
}

#[test]
fn slot_edge_records_induced_node_edge() {
    let mut g = RenderGraph::new();
    let outs = vec![SlotDescriptor::new("texture", DataKind::Texture)];
    assert_eq!(g.add_node("swapchain", ports(vec![], outs)), Ok(()));
    let ins = vec![SlotDescriptor::new("color", DataKind::Texture)];
    assert_eq!(g.add_node("main_pass", ports(ins, vec![])), Ok(()));
    assert_eq!(
        g.add_slot_edge(
            "swapchain",
            SlotLabel::named("texture"),
            "main_pass",
            SlotLabel::named("color"),
        ),
        Ok(())
    );
    let sc = g.node_index("swapchain").unwrap();
    let mp = g.node_index("main_pass").unwrap();
    let into_mp = g.input_edges("main_pass").unwrap();
    let slot_edges: Vec<&Edge> = into_mp
        .iter()
        .filter(|e| matches!(e, Edge::SlotEdge { .. }))
        .collect();
    let node_edges: Vec<&Edge> = into_mp
        .iter()
        .filter(|e| matches!(e, Edge::NodeEdge { .. }))
        .collect();
    assert_eq!(slot_edges.len(), 1);
    assert_eq!(
        *slot_edges[0],
        Edge::SlotEdge { source: sc, source_index: 0, target: mp, target_index: 0 }
    );
    assert_eq!(node_edges.len(), 1);
    assert_eq!(*node_edges[0], Edge::NodeEdge { source: sc, target: mp });
    let out_sc = g.output_edges("swapchain").unwrap();
    assert_eq!(out_sc.len(), 2);
}

#[test]
fn explicit_node_edge_after_slot_edge_is_a_no_op() {
    let mut g = RenderGraph::new();
    let outs = vec![SlotDescriptor::new("texture", DataKind::Texture)];
    assert_eq!(g.add_node("swapchain", ports(vec![], outs)), Ok(()));
    let ins = vec![SlotDescriptor::new("color", DataKind::Texture)];
    assert_eq!(g.add_node("main_pass", ports(ins, vec![])), Ok(()));
    assert_eq!(
        g.add_slot_edge(
            "swapchain",
            SlotLabel::named("texture"),
            "main_pass",
            SlotLabel::named("color"),
        ),
        Ok(())
    );
    let before = g.edge_count();
    // The slot edge already orders the two nodes, so the explicit
    // ordering request succeeds without registering anything new.
    assert_eq!(g.add_node_edge("swapchain", "main_pass"), Ok(()));
    assert_eq!(g.edge_count(), before);
}

#[test]
fn missing_output_on_sink_node() {
    let mut g = RenderGraph::new();
    let ins = vec![SlotDescriptor::new("color", DataKind::Texture)];
    assert_eq!(g.add_node("main_pass", ports(ins, vec![])), Ok(()));
    let outs = vec![SlotDescriptor::new("texture", DataKind::Texture)];
    assert_eq!(g.add_node("swapchain", ports(vec![], outs)), Ok(()));
    assert_eq!(
        g.add_slot_edge(
            "main_pass",
            SlotLabel::named("missing_output"),
            "swapchain",
            SlotLabel::named("texture"),
        ),
        Err(GraphError::SlotNotFound)
    );
}

#[test]
fn chain_rejects_closing_edge() {
    let mut g = RenderGraph::new();
    assert_eq!(g.add_node("a", plain()), Ok(()));
    assert_eq!(g.add_node("b", plain()), Ok(()));
    assert_eq!(g.add_node("c", plain()), Ok(()));
    assert_eq!(g.add_node_edge("a", "b"), Ok(()));
    assert_eq!(g.add_node_edge("b", "c"), Ok(()));
    assert_eq!(g.add_node_edge("c", "a"), Err(GraphError::WouldCreateCycle));
    assert_eq!(g.edge_count(), 2);
    let a = g.node_index("a").unwrap();
    let b = g.node_index("b").unwrap();
    let c = g.node_index("c").unwrap();
    let out_a = g.output_edges("a").unwrap();
    let out_b = g.output_edges("b").unwrap();
    assert_eq!(out_a, vec![Edge::NodeEdge { source: a, target: b }]);
    assert_eq!(out_b, vec![Edge::NodeEdge { source: b, target: c }]);
    assert!(g.output_edges("c").unwrap().is_empty());
}

#[test]
fn long_chain_indirect_cycle_refused() {
    let mut g = RenderGraph::new();
    let names = ["n0", "n1", "n2", "n3", "n4", "n5"];
    for n in names.iter() {
        assert_eq!(g.add_node(n, plain()), Ok(()));
    }
    for w in names.windows(2) {
        assert_eq!(g.add_node_edge(w[0], w[1]), Ok(()));
    }
    assert_eq!(g.add_node_edge("n5", "n0"), Err(GraphError::WouldCreateCycle));
    assert_eq!(g.add_node_edge("n3", "n1"), Err(GraphError::WouldCreateCycle));
    assert_eq!(g.add_node_edge("n0", "n5"), Ok(()));
    assert_eq!(g.edge_count(), 6);
}

#[test]
fn edge_accessors_report_missing_node() {
    let g = RenderGraph::new();
    assert_eq!(g.input_edges("nobody"), Err(GraphError::NodeNotFound));
    assert_eq!(g.output_edges("nobody"), Err(GraphError::NodeNotFound));
    assert!(g.node_index("nobody").is_none());
}

#[test]
fn default_graph_is_empty() {
    let g = RenderGraph::default();
    assert_eq!(g.node_count(), 0);
    assert_eq!(g.edge_count(), 0);
}
