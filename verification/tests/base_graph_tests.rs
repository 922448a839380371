use render_graph::BaseRenderGraphBuilder;
use render_graph::BaseRenderGraphConfig;
use render_graph::DataKind;
use render_graph::Edge;
use render_graph::GraphError;
use render_graph::NodePorts;
use render_graph::RenderGraph;
use render_graph::SlotDescriptor;
use render_graph::SlotLabel;
use render_graph::node;

#[test]
fn default_config_switches_everything_on() {
    let config = BaseRenderGraphConfig::default();
    assert!(config.add_2d_camera);
    assert!(config.add_3d_camera);
    assert!(config.add_main_depth_texture);
    assert!(config.add_main_pass);
    assert!(config.connect_main_pass_to_swapchain);
    assert!(config.connect_main_pass_to_main_depth_texture);
}

#[test]
fn full_base_graph_topology() {
    let mut g = RenderGraph::new();
    let config = BaseRenderGraphConfig::default();
    assert_eq!(g.add_base_graph(&config), Ok(()));
    assert_eq!(g.node_count(), 7);
    for name in [
        node::TEXTURE_COPY,
        node::CAMERA3D,
        node::CAMERA2D,
        node::SHARED_BUFFERS,
        node::MAIN_DEPTH_TEXTURE,
        node::MAIN_PASS,
        node::PRIMARY_SWAP_CHAIN,
    ] {
        assert!(g.get_node(name).is_some(), "missing node {name}");
    }
    let mp = g.node_index(node::MAIN_PASS).unwrap();
    let sc = g.node_index(node::PRIMARY_SWAP_CHAIN).unwrap();
    let dt = g.node_index(node::MAIN_DEPTH_TEXTURE).unwrap();
    let into_mp = g.input_edges(node::MAIN_PASS).unwrap();
    let slot_sources: Vec<usize> = into_mp
        .iter()
        .filter(|e| matches!(e, Edge::SlotEdge { .. }))
        .map(|e| e.source())
        .collect();
    assert_eq!(slot_sources.len(), 2);
    assert!(slot_sources.contains(&sc));
    assert!(slot_sources.contains(&dt));
    // The main pass has six incoming node edges: the four pure
    // ordering predecessors, plus the two induced by the slot edges.
    let node_sources: Vec<usize> = into_mp
        .iter()
        .filter(|e| matches!(e, Edge::NodeEdge { .. }))
        .map(|e| e.source())
        .collect();
    assert_eq!(node_sources.len(), 6);
    let mut ordering_only: Vec<usize> = node_sources
        .iter()
        .copied()
        .filter(|s| !slot_sources.contains(s))
        .collect();
    ordering_only.sort_unstable();
    let mut expected = vec![
        g.node_index(node::TEXTURE_COPY).unwrap(),
        g.node_index(node::SHARED_BUFFERS).unwrap(),
        g.node_index(node::CAMERA3D).unwrap(),
        g.node_index(node::CAMERA2D).unwrap(),
    ];
    expected.sort_unstable();
    assert_eq!(ordering_only, expected);
    // Each slot edge binds the expected input: color at 0, depth at 1.
    for e in &into_mp {
        if let Edge::SlotEdge { source, source_index, target, target_index } = e {
            assert_eq!(*target, mp);
            assert_eq!(*source_index, 0);
            if *source == sc {
                assert_eq!(*target_index, 0);
            } else {
                assert_eq!(*source, dt);
                assert_eq!(*target_index, 1);
            }
        }
    }
    assert_eq!(g.edge_count(), 8);
}

#[test]
fn minimal_configuration() {
    let mut g = RenderGraph::new();
    let config = BaseRenderGraphConfig {
        add_2d_camera: false,
        add_3d_camera: false,
        add_main_depth_texture: false,
        add_main_pass: false,
        connect_main_pass_to_swapchain: false,
        connect_main_pass_to_main_depth_texture: false,
    };
    assert_eq!(g.add_base_graph(&config), Ok(()));
    assert_eq!(g.node_count(), 3);
    assert!(g.get_node(node::TEXTURE_COPY).is_some());
    assert!(g.get_node(node::SHARED_BUFFERS).is_some());
    assert!(g.get_node(node::PRIMARY_SWAP_CHAIN).is_some());
    assert!(g.get_node(node::MAIN_PASS).is_none());
    assert_eq!(g.edge_count(), 0);
}

#[test]
fn depth_texture_without_main_pass_is_valid() {
    let mut g = RenderGraph::new();
    let config = BaseRenderGraphConfig {
        add_2d_camera: false,
        add_3d_camera: false,
        add_main_depth_texture: true,
        add_main_pass: false,
        connect_main_pass_to_swapchain: false,
        connect_main_pass_to_main_depth_texture: false,
    };
    assert_eq!(g.add_base_graph(&config), Ok(()));
    assert_eq!(g.node_count(), 4);
    assert!(g.get_node(node::MAIN_DEPTH_TEXTURE).is_some());
    assert_eq!(g.edge_count(), 0);
}

#[test]
fn connection_without_main_pass_propagates_the_error() {
    let mut g = RenderGraph::new();
    let config = BaseRenderGraphConfig {
        add_2d_camera: true,
        add_3d_camera: true,
        add_main_depth_texture: true,
        add_main_pass: false,
        connect_main_pass_to_swapchain: true,
        connect_main_pass_to_main_depth_texture: false,
    };
    assert_eq!(g.add_base_graph(&config), Err(GraphError::NodeNotFound));
}

#[test]
fn main_pass_without_cameras() {
    let mut g = RenderGraph::new();
    let config = BaseRenderGraphConfig {
        add_2d_camera: false,
        add_3d_camera: false,
        add_main_depth_texture: true,
        add_main_pass: true,
        connect_main_pass_to_swapchain: true,
        connect_main_pass_to_main_depth_texture: true,
    };
    assert_eq!(g.add_base_graph(&config), Ok(()));
    assert_eq!(g.node_count(), 5);
    // Orderings from texture copy and shared buffers, plus two slot
    // edges with their induced node edges.
    assert_eq!(g.edge_count(), 6);
    let into_mp = g.input_edges(node::MAIN_PASS).unwrap();
    assert_eq!(into_mp.len(), 6);
}

#[test]
fn building_twice_reports_duplicate_nodes() {
    let mut g = RenderGraph::new();
    let config = BaseRenderGraphConfig::default();
    assert_eq!(g.add_base_graph(&config), Ok(()));
    assert_eq!(g.add_base_graph(&config), Err(GraphError::DuplicateNodeName));
}

#[test]
fn dirty_store_duplicate_name_stops_the_build() {
    let mut g = RenderGraph::new();
    let outs = vec![SlotDescriptor::new("leftover", DataKind::Buffer)];
    assert_eq!(
        g.add_node(node::TEXTURE_COPY, NodePorts { inputs: vec![], outputs: outs }),
        Ok(())
    );
    let config = BaseRenderGraphConfig::default();
    assert_eq!(g.add_base_graph(&config), Err(GraphError::DuplicateNodeName));
    // The pre-existing entry is untouched.
    assert_eq!(g.node_count(), 1);
    let entry = g.get_node(node::TEXTURE_COPY).unwrap();
    assert_eq!(entry.outputs.len(), 1);
    assert_eq!(entry.outputs[0].name, "leftover");
    assert_eq!(entry.outputs[0].kind, DataKind::Buffer);
}

fn connect_swapchain_only() -> BaseRenderGraphConfig {
    BaseRenderGraphConfig {
        add_2d_camera: false,
        add_3d_camera: false,
        add_main_depth_texture: false,
        add_main_pass: false,
        connect_main_pass_to_swapchain: true,
        connect_main_pass_to_main_depth_texture: false,
    }
}

#[test]
fn dirty_store_bound_color_input_reports_slot_already_bound() {
    let mut g = RenderGraph::new();
    let outs = vec![SlotDescriptor::new("texture", DataKind::Texture)];
    assert_eq!(g.add_node("other_source", NodePorts { inputs: vec![], outputs: outs }), Ok(()));
    let ins = vec![SlotDescriptor::new("color", DataKind::Texture)];
    assert_eq!(g.add_node(node::MAIN_PASS, NodePorts { inputs: ins, outputs: vec![] }), Ok(()));
    assert_eq!(
        g.add_slot_edge(
            "other_source",
            SlotLabel::named("texture"),
            node::MAIN_PASS,
            SlotLabel::named("color"),
        ),
        Ok(())
    );
    let edges_before = g.edge_count();
    assert_eq!(g.add_base_graph(&connect_swapchain_only()), Err(GraphError::SlotAlreadyBound));
    // The failing binding changed no edge; the three fresh nodes stay.
    assert_eq!(g.edge_count(), edges_before);
    assert_eq!(g.node_count(), 5);
}

#[test]
fn dirty_store_buffer_color_input_reports_kind_mismatch() {
    let mut g = RenderGraph::new();
    let ins = vec![SlotDescriptor::new("color", DataKind::Buffer)];
    assert_eq!(g.add_node(node::MAIN_PASS, NodePorts { inputs: ins, outputs: vec![] }), Ok(()));
    assert_eq!(g.add_base_graph(&connect_swapchain_only()), Err(GraphError::SlotKindMismatch));
    assert_eq!(g.edge_count(), 0);
}

#[test]
fn dirty_store_missing_color_input_reports_slot_not_found() {
    let mut g = RenderGraph::new();
    assert_eq!(g.add_node(node::MAIN_PASS, NodePorts { inputs: vec![], outputs: vec![] }), Ok(()));
    assert_eq!(g.add_base_graph(&connect_swapchain_only()), Err(GraphError::SlotNotFound));
    assert_eq!(g.edge_count(), 0);
}
