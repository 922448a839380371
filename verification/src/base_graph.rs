//! The base render graph: a core topology of well-known nodes that
//! independent render plugins build upon.  Which optional parts are
//! registered is driven by a configuration of boolean switches.

use vstd::prelude::*;
use crate::edge::Edge;
use crate::edge::edge_source;
use crate::error::GraphError;
use crate::graph::NodePorts;
use crate::graph::RenderGraph;
use crate::model::GraphModel;
use crate::model::edges_exact;
use crate::model::has_node_edge;
use crate::model::has_slot_edge;
use crate::model::lemma_edges_exact_edge_push;
use crate::model::lemma_has_node_edge_extend;
use crate::model::lemma_names_among_grow;
use crate::model::lemma_node_id_in_range;
use crate::model::lemma_present_node_edge;
use crate::model::lemma_node_id_is;
use crate::model::lemma_not_named;
use crate::model::lemma_not_named_same_nodes;
use crate::model::lemma_not_reaches;
use crate::model::lemma_slot_id_is;
use crate::model::names_among;
use crate::model::node_id;
use crate::model::node_named;
use crate::model::slot_id;
use crate::model::slot_named;
use crate::model::spec_add_node;
use crate::model::spec_add_node_edge;
use crate::model::spec_add_slot_edge;
use crate::node;
use crate::reach::lemma_no_outgoing;
use crate::reach::reaches;
use crate::slot::DataKind;
use crate::slot::SlotDescriptor;
use crate::slot::SlotLabel;
use crate::slot::SlotLabelModel;
use crate::slot::SlotModel;

verus! {

/// Which optional parts of the base graph to register.  Every switch
/// gates one contiguous block of registrations, and the switches
/// combine freely.
#[derive(Clone, Copy, Debug, PartialEq, Eq, Structural)]
pub struct BaseRenderGraphConfig {
    pub add_2d_camera: bool,
    pub add_3d_camera: bool,
    pub add_main_depth_texture: bool,
    pub add_main_pass: bool,
    pub connect_main_pass_to_swapchain: bool,
    pub connect_main_pass_to_main_depth_texture: bool,
}

impl Default for BaseRenderGraphConfig {
    /// Everything switched on.
    fn default() -> (r: BaseRenderGraphConfig)
        ensures
            r == (BaseRenderGraphConfig {
                add_2d_camera: true,
                add_3d_camera: true,
                add_main_depth_texture: true,
                add_main_pass: true,
                connect_main_pass_to_swapchain: true,
                connect_main_pass_to_main_depth_texture: true,
            }),
    {
        BaseRenderGraphConfig {
            add_2d_camera: true,
            add_3d_camera: true,
            add_main_depth_texture: true,
            add_main_pass: true,
            connect_main_pass_to_swapchain: true,
            connect_main_pass_to_main_depth_texture: true,
        }
    }
}

/// A configuration whose connections only name parts it also adds.
pub open spec fn consistent(config: BaseRenderGraphConfig) -> bool {
    &&& config.connect_main_pass_to_swapchain ==> config.add_main_pass
    &&& config.connect_main_pass_to_main_depth_texture ==> (config.add_main_pass
        && config.add_main_depth_texture)
}

/// One when the switch is on.
pub open spec fn one_if(b: bool) -> int {
    if b {
        1
    } else {
        0
    }
}

/// How many nodes the base graph registers.
pub open spec fn base_node_count(config: BaseRenderGraphConfig) -> int {
    3 + one_if(config.add_3d_camera) + one_if(config.add_2d_camera) + one_if(
        config.add_main_depth_texture,
    ) + one_if(config.add_main_pass)
}

/// How many edges the base graph registers: the main pass orderings,
/// plus a slot edge and its induced node edge per connection.
pub open spec fn base_edge_count(config: BaseRenderGraphConfig) -> int {
    (if config.add_main_pass {
        2 + one_if(config.add_3d_camera) + one_if(config.add_2d_camera)
    } else {
        0
    }) + 2 * one_if(config.connect_main_pass_to_swapchain) + 2 * one_if(
        config.connect_main_pass_to_main_depth_texture,
    )
}

/// A node edge runs between the nodes of these names.
pub open spec fn node_edge_named(g: GraphModel, a: Seq<char>, b: Seq<char>) -> bool {
    &&& node_named(g, a)
    &&& node_named(g, b)
    &&& has_node_edge(g, node_id(g, a), node_id(g, b))
}

/// A slot edge binds the named output of `a` to the named input of
/// `b`.
pub open spec fn slot_edge_named(
    g: GraphModel,
    a: Seq<char>,
    aslot: Seq<char>,
    b: Seq<char>,
    bslot: Seq<char>,
) -> bool {
    &&& node_named(g, a)
    &&& node_named(g, b)
    &&& slot_named(g.nodes[node_id(g, a) as int].outputs, aslot)
    &&& slot_named(g.nodes[node_id(g, b) as int].inputs, bslot)
    &&& has_slot_edge(
        g,
        node_id(g, a),
        slot_id(g.nodes[node_id(g, a) as int].outputs, aslot),
        node_id(g, b),
        slot_id(g.nodes[node_id(g, b) as int].inputs, bslot),
    )
}

/// What a base graph assembled on an empty store looks like: exactly
/// the switched-on nodes, the main pass ordered after its suppliers,
/// and the switched-on slot bindings with their induced node edges.
pub open spec fn base_graph_shape(g: GraphModel, config: BaseRenderGraphConfig) -> bool {
    &&& g.nodes.len() == base_node_count(config)
    &&& g.edges.len() == base_edge_count(config)
    &&& node_named(g, "texture_copy"@)
    &&& node_named(g, "shared_buffers"@)
    &&& node_named(g, "swapchain"@)
    &&& config.add_3d_camera ==> node_named(g, "camera3d"@)
    &&& config.add_2d_camera ==> node_named(g, "camera2d"@)
    &&& config.add_main_depth_texture ==> node_named(g, "main_pass_depth_texture"@)
    &&& config.add_main_pass ==> node_named(g, "main_pass"@)
    &&& config.add_main_pass ==> node_edge_named(g, "texture_copy"@, "main_pass"@)
    &&& config.add_main_pass ==> node_edge_named(g, "shared_buffers"@, "main_pass"@)
    &&& (config.add_main_pass && config.add_3d_camera) ==> node_edge_named(
        g,
        "camera3d"@,
        "main_pass"@,
    )
    &&& (config.add_main_pass && config.add_2d_camera) ==> node_edge_named(
        g,
        "camera2d"@,
        "main_pass"@,
    )
    &&& config.connect_main_pass_to_swapchain ==> (slot_edge_named(
        g,
        "swapchain"@,
        "texture"@,
        "main_pass"@,
        "color"@,
    ) && node_edge_named(g, "swapchain"@, "main_pass"@))
    &&& config.connect_main_pass_to_main_depth_texture ==> (slot_edge_named(
        g,
        "main_pass_depth_texture"@,
        "texture"@,
        "main_pass"@,
        "depth"@,
    ) && node_edge_named(g, "main_pass_depth_texture"@, "main_pass"@))
}

/// The slot list of a single texture output.
pub open spec fn texture_output() -> Seq<SlotModel> {
    seq![SlotModel { name: "texture"@, kind: DataKind::Texture }]
}

/// The main pass's input slots: color, then depth, both textures.
pub open spec fn main_pass_input_slots() -> Seq<SlotModel> {
    seq![
        SlotModel { name: "color"@, kind: DataKind::Texture },
        SlotModel { name: "depth"@, kind: DataKind::Texture },
    ]
}

/// Registers a node unless an earlier step of the chain was refused;
/// the first refusal carries through unchanged.
pub open spec fn step_node(
    s: (GraphModel, Result<(), GraphError>),
    name: Seq<char>,
    inputs: Seq<SlotModel>,
    outputs: Seq<SlotModel>,
) -> (GraphModel, Result<(), GraphError>) {
    if s.1 is Err {
        s
    } else {
        spec_add_node(s.0, name, inputs, outputs)
    }
}

/// Registers a node edge unless an earlier step was refused.
pub open spec fn step_node_edge(
    s: (GraphModel, Result<(), GraphError>),
    sname: Seq<char>,
    tname: Seq<char>,
) -> (GraphModel, Result<(), GraphError>) {
    if s.1 is Err {
        s
    } else {
        spec_add_node_edge(s.0, sname, tname)
    }
}

/// Registers a slot edge unless an earlier step was refused.
pub open spec fn step_slot_edge(
    s: (GraphModel, Result<(), GraphError>),
    sname: Seq<char>,
    slabel: SlotLabelModel,
    tname: Seq<char>,
    tlabel: SlotLabelModel,
) -> (GraphModel, Result<(), GraphError>) {
    if s.1 is Err {
        s
    } else {
        spec_add_slot_edge(s.0, sname, slabel, tname, tlabel)
    }
}

/// The node registrations of the base graph short of the swap chain,
/// in call order, stopping at the first refusal.
pub open spec fn spec_base_nodes(g: GraphModel, c: BaseRenderGraphConfig) -> (
    GraphModel,
    Result<(), GraphError>,
) {
    let s0 = spec_add_node(g, "texture_copy"@, Seq::empty(), Seq::empty());
    let s1 = if c.add_3d_camera {
        step_node(s0, "camera3d"@, Seq::empty(), Seq::empty())
    } else {
        s0
    };
    let s2 = if c.add_2d_camera {
        step_node(s1, "camera2d"@, Seq::empty(), Seq::empty())
    } else {
        s1
    };
    let s3 = step_node(s2, "shared_buffers"@, Seq::empty(), Seq::empty());
    let s4 = if c.add_main_depth_texture {
        step_node(s3, "main_pass_depth_texture"@, Seq::empty(), texture_output())
    } else {
        s3
    };
    if c.add_main_pass {
        step_node(s4, "main_pass"@, main_pass_input_slots(), Seq::empty())
    } else {
        s4
    }
}

/// The ordering edges into the main pass, in call order, stopping at
/// the first refusal.
pub open spec fn spec_base_orderings(g: GraphModel, c: BaseRenderGraphConfig) -> (
    GraphModel,
    Result<(), GraphError>,
) {
    let s0 = spec_add_node_edge(g, "texture_copy"@, "main_pass"@);
    let s1 = step_node_edge(s0, "shared_buffers"@, "main_pass"@);
    let s2 = if c.add_3d_camera {
        step_node_edge(s1, "camera3d"@, "main_pass"@)
    } else {
        s1
    };
    if c.add_2d_camera {
        step_node_edge(s2, "camera2d"@, "main_pass"@)
    } else {
        s2
    }
}

/// The swap chain registration and the switched-on slot bindings, in
/// call order, stopping at the first refusal.
pub open spec fn spec_base_connections(g: GraphModel, c: BaseRenderGraphConfig) -> (
    GraphModel,
    Result<(), GraphError>,
) {
    let s0 = spec_add_node(g, "swapchain"@, Seq::empty(), texture_output());
    let s1 = if c.connect_main_pass_to_swapchain {
        step_slot_edge(
            s0,
            "swapchain"@,
            SlotLabelModel::Name("texture"@),
            "main_pass"@,
            SlotLabelModel::Name("color"@),
        )
    } else {
        s0
    };
    if c.connect_main_pass_to_main_depth_texture {
        step_slot_edge(
            s1,
            "main_pass_depth_texture"@,
            SlotLabelModel::Name("texture"@),
            "main_pass"@,
            SlotLabelModel::Name("depth"@),
        )
    } else {
        s1
    }
}

/// What one `add_base_graph` call does to any graph: the base
/// registrations in their call order, stopping at the first refusal,
/// whose error is returned unchanged; everything registered before the
/// refusal stays.
pub open spec fn spec_add_base_graph(g: GraphModel, c: BaseRenderGraphConfig) -> (
    GraphModel,
    Result<(), GraphError>,
) {
    let a = spec_base_nodes(g, c);
    let b = if c.add_main_pass && a.1 is Ok {
        spec_base_orderings(a.0, c)
    } else {
        a
    };
    if b.1 is Ok {
        spec_base_connections(b.0, c)
    } else {
        b
    }
}

/// What the store holds after the node registrations, started from an
/// empty store: the switched-on nodes short of the swap chain, with
/// their slot lists, and nothing else.
pub open spec fn nodes_staged(g: GraphModel, config: BaseRenderGraphConfig) -> bool {
    &&& g.nodes.len() == 2 + one_if(config.add_3d_camera) + one_if(config.add_2d_camera) + one_if(
        config.add_main_depth_texture,
    ) + one_if(config.add_main_pass)
    &&& node_named(g, "texture_copy"@)
    &&& node_named(g, "shared_buffers"@)
    &&& !node_named(g, "swapchain"@)
    &&& config.add_3d_camera ==> node_named(g, "camera3d"@)
    &&& config.add_2d_camera ==> node_named(g, "camera2d"@)
    &&& !config.add_main_pass ==> !node_named(g, "main_pass"@)
    &&& !config.add_main_depth_texture ==> !node_named(g, "main_pass_depth_texture"@)
    &&& config.add_main_depth_texture ==> (node_named(g, "main_pass_depth_texture"@) && g.nodes[
    node_id(g, "main_pass_depth_texture"@) as int].outputs == seq![
        SlotModel { name: "texture"@, kind: DataKind::Texture },
    ])
    &&& config.add_main_pass ==> (node_named(g, "main_pass"@) && g.nodes[node_id(
        g,
        "main_pass"@,
    ) as int].inputs == seq![
        SlotModel { name: "color"@, kind: DataKind::Texture },
        SlotModel { name: "depth"@, kind: DataKind::Texture },
    ])
}

/// What the store holds after the main pass orderings: one node edge
/// into the main pass from each switched-on supplier, and nothing
/// else.
pub open spec fn orderings_done(g: GraphModel, config: BaseRenderGraphConfig) -> bool {
    &&& g.edges.len() == 2 + one_if(config.add_3d_camera) + one_if(config.add_2d_camera)
    &&& node_edge_named(g, "texture_copy"@, "main_pass"@)
    &&& node_edge_named(g, "shared_buffers"@, "main_pass"@)
    &&& config.add_3d_camera ==> node_edge_named(g, "camera3d"@, "main_pass"@)
    &&& config.add_2d_camera ==> node_edge_named(g, "camera2d"@, "main_pass"@)
    &&& forall|k: int|
        0 <= k < g.edges.len() ==> ((#[trigger] g.edges[k]) matches Edge::NodeEdge {
            source,
            target,
        } && target == node_id(g, "main_pass"@) && source != node_id(g, "main_pass"@) && source
            < g.nodes.len() && (g.nodes[source as int].name == "texture_copy"@ || g.nodes[
        source as int].name == "shared_buffers"@ || g.nodes[source as int].name == "camera3d"@
            || g.nodes[source as int].name == "camera2d"@))
}

/// What the connection stage expects: the swap chain name free, the
/// main pass with its inputs and orderings when switched on, and the
/// depth texture with its output when switched on.
pub open spec fn connections_pre(g: GraphModel, config: BaseRenderGraphConfig) -> bool {
    &&& !node_named(g, "swapchain"@)
    &&& config.add_main_pass ==> (node_named(g, "main_pass"@) && g.nodes[node_id(
        g,
        "main_pass"@,
    ) as int].inputs == seq![
        SlotModel { name: "color"@, kind: DataKind::Texture },
        SlotModel { name: "depth"@, kind: DataKind::Texture },
    ] && orderings_done(g, config))
    &&& !config.add_main_pass ==> (!node_named(g, "main_pass"@) && g.edges.len() == 0)
    &&& config.add_main_depth_texture ==> (node_named(g, "main_pass_depth_texture"@) && g.nodes[
    node_id(g, "main_pass_depth_texture"@) as int].outputs == seq![
        SlotModel { name: "texture"@, kind: DataKind::Texture },
    ])
    &&& !config.add_main_depth_texture ==> !node_named(g, "main_pass_depth_texture"@)
}

/// The well-known names differ pairwise, and so do the main pass's
/// input slot names.
proof fn lemma_base_names_distinct()
    ensures
        "texture_copy"@ != "camera3d"@,
        "texture_copy"@ != "camera2d"@,
        "texture_copy"@ != "shared_buffers"@,
        "texture_copy"@ != "main_pass_depth_texture"@,
        "texture_copy"@ != "main_pass"@,
        "texture_copy"@ != "swapchain"@,
        "camera3d"@ != "camera2d"@,
        "camera3d"@ != "shared_buffers"@,
        "camera3d"@ != "main_pass_depth_texture"@,
        "camera3d"@ != "main_pass"@,
        "camera3d"@ != "swapchain"@,
        "camera2d"@ != "shared_buffers"@,
        "camera2d"@ != "main_pass_depth_texture"@,
        "camera2d"@ != "main_pass"@,
        "camera2d"@ != "swapchain"@,
        "shared_buffers"@ != "main_pass_depth_texture"@,
        "shared_buffers"@ != "main_pass"@,
        "shared_buffers"@ != "swapchain"@,
        "main_pass_depth_texture"@ != "main_pass"@,
        "main_pass_depth_texture"@ != "swapchain"@,
        "main_pass"@ != "swapchain"@,
        "color"@ != "depth"@,
{
    reveal_strlit("texture_copy");
    reveal_strlit("camera3d");
    reveal_strlit("camera2d");
    reveal_strlit("shared_buffers");
    reveal_strlit("main_pass_depth_texture");
    reveal_strlit("main_pass");
    reveal_strlit("swapchain");
    reveal_strlit("color");
    reveal_strlit("depth");
    assert("texture_copy"@.len() == 12);
    assert("camera3d"@.len() == 8);
    assert("camera2d"@.len() == 8);
    assert("shared_buffers"@.len() == 14);
    assert("main_pass_depth_texture"@.len() == 23);
    assert("main_pass"@.len() == 9);
    assert("swapchain"@.len() == 9);
    assert("color"@.len() == 5);
    assert("depth"@.len() == 5);
    assert("camera3d"@[6] == '3');
    assert("camera2d"@[6] == '2');
    assert("main_pass"@[0] == 'm');
    assert("swapchain"@[0] == 's');
    assert("color"@[0] == 'c');
    assert("depth"@[0] == 'd');
}

impl RenderGraph {
    /// Registers the base graph's nodes short of the swap chain, in
    /// the order the switches are consulted.
    #[verifier::rlimit(60)]
    fn base_nodes_stage(&mut self, config: &BaseRenderGraphConfig) -> (r: Result<(), GraphError>)
        requires
            old(self).wf(),
            old(self)@.nodes.len() + 6 <= usize::MAX,
        ensures
            final(self).wf(),
            final(self)@.edges == old(self)@.edges,
            final(self)@.nodes.len() <= old(self)@.nodes.len() + 6,
            old(self)@.nodes.len() == 0 ==> (r == Ok::<(), GraphError>(()) && nodes_staged(
                final(self)@,
                *config,
            )),
            final(self)@ == spec_base_nodes(old(self)@, *config).0,
            r == spec_base_nodes(old(self)@, *config).1,
    {
        let ghost fresh = self@.nodes.len() == 0;
        let ghost g0 = self@;
        let ghost st0 = spec_add_node(g0, "texture_copy"@, Seq::empty(), Seq::empty());
        let ghost st1 = if config.add_3d_camera {
            step_node(st0, "camera3d"@, Seq::empty(), Seq::empty())
        } else {
            st0
        };
        let ghost st2 = if config.add_2d_camera {
            step_node(st1, "camera2d"@, Seq::empty(), Seq::empty())
        } else {
            st1
        };
        let ghost st3 = step_node(st2, "shared_buffers"@, Seq::empty(), Seq::empty());
        let ghost st4 = if config.add_main_depth_texture {
            step_node(st3, "main_pass_depth_texture"@, Seq::empty(), texture_output())
        } else {
            st3
        };
        let ghost st5 = if config.add_main_pass {
            step_node(st4, "main_pass"@, main_pass_input_slots(), Seq::empty())
        } else {
            st4
        };
        let ghost tc_n: Seq<char> = "texture_copy"@;
        let ghost c3_n: Seq<char> = "camera3d"@;
        let ghost c2_n: Seq<char> = "camera2d"@;
        let ghost sb_n: Seq<char> = "shared_buffers"@;
        let ghost dt_n: Seq<char> = "main_pass_depth_texture"@;
        let ghost mp_n: Seq<char> = "main_pass"@;
        let ghost sc_n: Seq<char> = "swapchain"@;
        let ghost mut allowed: Set<Seq<char>> = Set::empty();
        let ghost mut tc_i: usize = 0;
        let ghost mut c3_i: usize = 0;
        let ghost mut c2_i: usize = 0;
        let ghost mut sb_i: usize = 0;
        let ghost mut dt_i: usize = 0;
        let ghost mut mp_i: usize = 0;
        proof {
            lemma_base_names_distinct();
            assert(crate::graph::slots_model(Seq::<SlotDescriptor>::empty())
                =~= Seq::<SlotModel>::empty());
            if fresh {
                assert(names_among(self@, allowed));
            }
        }
        let ghost gp1 = self@;
        let r1 = self.add_node(
            node::TEXTURE_COPY,
            NodePorts { inputs: Vec::new(), outputs: Vec::new() },
        );
        proof {
            assert(self@ == st0.0 && r1 == st0.1);
            if fresh {
                lemma_not_named(gp1, allowed, tc_n);
                assert(r1 == Ok::<(), GraphError>(()));
                tc_i = gp1.nodes.len() as usize;
                lemma_names_among_grow(gp1, self@, allowed, tc_n);
                allowed = allowed.insert(tc_n);
                assert(self@.nodes[tc_i as int].name == tc_n);
            }
        }
        match r1 {
            Err(e) => {
                return Err(e);
            },
            Ok(_) => {},
        }
        if config.add_3d_camera {
            let ghost gp2 = self@;
            let r2 = self.add_node(
                node::CAMERA3D,
                NodePorts { inputs: Vec::new(), outputs: Vec::new() },
            );
            proof {
                assert(self@ == st1.0 && r2 == st1.1);
                if fresh {
                    lemma_not_named(gp2, allowed, c3_n);
                    assert(r2 == Ok::<(), GraphError>(()));
                    c3_i = gp2.nodes.len() as usize;
                    lemma_names_among_grow(gp2, self@, allowed, c3_n);
                    allowed = allowed.insert(c3_n);
                    assert(self@.nodes[tc_i as int].name == tc_n);
                    assert(self@.nodes[c3_i as int].name == c3_n);
                }
            }
            match r2 {
                Err(e) => {
                    return Err(e);
                },
                Ok(_) => {},
            }
        }
        proof {
            assert(self@ == st1.0 && st1.1 is Ok);
        }
        if config.add_2d_camera {
            let ghost gp3 = self@;
            let r3 = self.add_node(
                node::CAMERA2D,
                NodePorts { inputs: Vec::new(), outputs: Vec::new() },
            );
            proof {
                assert(self@ == st2.0 && r3 == st2.1);
                if fresh {
                    lemma_not_named(gp3, allowed, c2_n);
                    assert(r3 == Ok::<(), GraphError>(()));
                    c2_i = gp3.nodes.len() as usize;
                    lemma_names_among_grow(gp3, self@, allowed, c2_n);
                    allowed = allowed.insert(c2_n);
                    assert(self@.nodes[tc_i as int].name == tc_n);
                    assert(config.add_3d_camera ==> self@.nodes[c3_i as int].name == c3_n);
                    assert(self@.nodes[c2_i as int].name == c2_n);
                }
            }
            match r3 {
                Err(e) => {
                    return Err(e);
                },
                Ok(_) => {},
            }
        }
        proof {
            assert(self@ == st2.0 && st2.1 is Ok);
        }
        let ghost gp4 = self@;
        let r4 = self.add_node(
            node::SHARED_BUFFERS,
            NodePorts { inputs: Vec::new(), outputs: Vec::new() },
        );
        proof {
            assert(self@ == st3.0 && r4 == st3.1);
            if fresh {
                lemma_not_named(gp4, allowed, sb_n);
                assert(r4 == Ok::<(), GraphError>(()));
                sb_i = gp4.nodes.len() as usize;
                lemma_names_among_grow(gp4, self@, allowed, sb_n);
                allowed = allowed.insert(sb_n);
                assert(self@.nodes[tc_i as int].name == tc_n);
                assert(config.add_3d_camera ==> self@.nodes[c3_i as int].name == c3_n);
                assert(config.add_2d_camera ==> self@.nodes[c2_i as int].name == c2_n);
                assert(self@.nodes[sb_i as int].name == sb_n);
            }
        }
        match r4 {
            Err(e) => {
                return Err(e);
            },
            Ok(_) => {},
        }
        if config.add_main_depth_texture {
            let mut depth_out: Vec<SlotDescriptor> = Vec::new();
            depth_out.push(SlotDescriptor::new("texture", DataKind::Texture));
            proof {
                assert(crate::graph::slots_model(depth_out@) =~= seq![
                    SlotModel { name: "texture"@, kind: DataKind::Texture },
                ]);
            }
            let ghost gp5 = self@;
            let r5 = self.add_node(
                node::MAIN_DEPTH_TEXTURE,
                NodePorts { inputs: Vec::new(), outputs: depth_out },
            );
            proof {
                assert(self@ == st4.0 && r5 == st4.1);
                if fresh {
                    lemma_not_named(gp5, allowed, dt_n);
                    assert(r5 == Ok::<(), GraphError>(()));
                    dt_i = gp5.nodes.len() as usize;
                    lemma_names_among_grow(gp5, self@, allowed, dt_n);
                    allowed = allowed.insert(dt_n);
                    assert(self@.nodes[tc_i as int].name == tc_n);
                    assert(config.add_3d_camera ==> self@.nodes[c3_i as int].name == c3_n);
                    assert(config.add_2d_camera ==> self@.nodes[c2_i as int].name == c2_n);
                    assert(self@.nodes[sb_i as int].name == sb_n);
                    assert(self@.nodes[dt_i as int].name == dt_n);
                    assert(self@.nodes[dt_i as int].outputs == seq![
                        SlotModel { name: "texture"@, kind: DataKind::Texture },
                    ]);
                }
            }
            match r5 {
                Err(e) => {
                    return Err(e);
                },
                Ok(_) => {},
            }
        }
        proof {
            assert(self@ == st4.0 && st4.1 is Ok);
        }
        if config.add_main_pass {
            let mut mp_in: Vec<SlotDescriptor> = Vec::new();
            mp_in.push(SlotDescriptor::new("color", DataKind::Texture));
            mp_in.push(SlotDescriptor::new("depth", DataKind::Texture));
            proof {
                assert(crate::graph::slots_model(mp_in@) =~= seq![
                    SlotModel { name: "color"@, kind: DataKind::Texture },
                    SlotModel { name: "depth"@, kind: DataKind::Texture },
                ]);
            }
            let ghost gp6 = self@;
            let r6 = self.add_node(node::MAIN_PASS, NodePorts { inputs: mp_in, outputs: Vec::new() });
            proof {
                assert(self@ == st5.0 && r6 == st5.1);
                if fresh {
                    lemma_not_named(gp6, allowed, mp_n);
                    assert(r6 == Ok::<(), GraphError>(()));
                    mp_i = gp6.nodes.len() as usize;
                    lemma_names_among_grow(gp6, self@, allowed, mp_n);
                    allowed = allowed.insert(mp_n);
                    assert(self@.nodes[tc_i as int].name == tc_n);
                    assert(config.add_3d_camera ==> self@.nodes[c3_i as int].name == c3_n);
                    assert(config.add_2d_camera ==> self@.nodes[c2_i as int].name == c2_n);
                    assert(self@.nodes[sb_i as int].name == sb_n);
                    assert(config.add_main_depth_texture ==> self@.nodes[dt_i as int].name == dt_n
                        && self@.nodes[dt_i as int].outputs == seq![
                        SlotModel { name: "texture"@, kind: DataKind::Texture },
                    ]);
                    assert(self@.nodes[mp_i as int].name == mp_n);
                    assert(self@.nodes[mp_i as int].inputs == seq![
                        SlotModel { name: "color"@, kind: DataKind::Texture },
                        SlotModel { name: "depth"@, kind: DataKind::Texture },
                    ]);
                }
            }
            match r6 {
                Err(e) => {
                    return Err(e);
                },
                Ok(_) => {},
            }
        }
        proof {
            assert(self@ == st5.0 && st5.1 is Ok);
            if fresh {
                let gf = self@;
                lemma_not_named(gf, allowed, sc_n);
                if !config.add_main_pass {
                    lemma_not_named(gf, allowed, mp_n);
                }
                if !config.add_main_depth_texture {
                    lemma_not_named(gf, allowed, dt_n);
                }
                assert(node_named(gf, tc_n)) by {
                    assert(gf.nodes[tc_i as int].name == tc_n);
                }
                assert(node_named(gf, sb_n)) by {
                    assert(gf.nodes[sb_i as int].name == sb_n);
                }
                if config.add_3d_camera {
                    assert(node_named(gf, c3_n)) by {
                        assert(gf.nodes[c3_i as int].name == c3_n);
                    }
                }
                if config.add_2d_camera {
                    assert(node_named(gf, c2_n)) by {
                        assert(gf.nodes[c2_i as int].name == c2_n);
                    }
                }
                if config.add_main_depth_texture {
                    assert(node_named(gf, dt_n)) by {
                        assert(gf.nodes[dt_i as int].name == dt_n);
                    }
                    lemma_node_id_is(gf, dt_n, dt_i as int);
                }
                if config.add_main_pass {
                    assert(node_named(gf, mp_n)) by {
                        assert(gf.nodes[mp_i as int].name == mp_n);
                    }
                    lemma_node_id_is(gf, mp_n, mp_i as int);
                }
                assert(nodes_staged(gf, *config));
            }
        }
        Ok(())
    }

    /// Registers the ordering edges from the main pass's suppliers
    /// into the main pass.
    #[verifier::rlimit(60)]
    fn base_orderings_stage(&mut self, config: &BaseRenderGraphConfig) -> (r: Result<
        (),
        GraphError,
    >)
        requires
            old(self).wf(),
        ensures
            final(self).wf(),
            final(self)@.nodes == old(self)@.nodes,
            (old(self)@.edges.len() == 0 && node_named(old(self)@, "texture_copy"@) && node_named(
                old(self)@,
                "shared_buffers"@,
            ) && node_named(old(self)@, "main_pass"@) && (config.add_3d_camera ==> node_named(
                old(self)@,
                "camera3d"@,
            )) && (config.add_2d_camera ==> node_named(old(self)@, "camera2d"@))) ==> (r == Ok::<
                (),
                GraphError,
            >(()) && orderings_done(final(self)@, *config)),
            final(self)@ == spec_base_orderings(old(self)@, *config).0,
            r == spec_base_orderings(old(self)@, *config).1,
    {
        let ghost g0 = self@;
        let ghost bt0 = spec_add_node_edge(g0, "texture_copy"@, "main_pass"@);
        let ghost bt1 = step_node_edge(bt0, "shared_buffers"@, "main_pass"@);
        let ghost bt2 = if config.add_3d_camera {
            step_node_edge(bt1, "camera3d"@, "main_pass"@)
        } else {
            bt1
        };
        let ghost bt3 = if config.add_2d_camera {
            step_node_edge(bt2, "camera2d"@, "main_pass"@)
        } else {
            bt2
        };
        let ghost tc_n: Seq<char> = "texture_copy"@;
        let ghost c3_n: Seq<char> = "camera3d"@;
        let ghost c2_n: Seq<char> = "camera2d"@;
        let ghost sb_n: Seq<char> = "shared_buffers"@;
        let ghost mp_n: Seq<char> = "main_pass"@;
        let ghost ok = g0.edges.len() == 0 && node_named(g0, tc_n) && node_named(g0, sb_n)
            && node_named(g0, mp_n) && (config.add_3d_camera ==> node_named(g0, c3_n)) && (
        config.add_2d_camera ==> node_named(g0, c2_n));
        let ghost mut edge_set: Set<Edge> = Set::empty();
        let ghost mut tc_i: usize = 0;
        let ghost mut c3_i: usize = 0;
        let ghost mut c2_i: usize = 0;
        let ghost mut sb_i: usize = 0;
        let ghost mut mp_i: usize = 0;
        proof {
            lemma_base_names_distinct();
            if ok {
                tc_i = node_id(g0, tc_n);
                sb_i = node_id(g0, sb_n);
                mp_i = node_id(g0, mp_n);
                lemma_node_id_in_range(g0, tc_n);
                lemma_node_id_in_range(g0, sb_n);
                lemma_node_id_in_range(g0, mp_n);
                if config.add_3d_camera {
                    c3_i = node_id(g0, c3_n);
                    lemma_node_id_in_range(g0, c3_n);
                }
                if config.add_2d_camera {
                    c2_i = node_id(g0, c2_n);
                    lemma_node_id_in_range(g0, c2_n);
                }
                assert(edges_exact(g0, edge_set));
            }
        }
        let ghost gp1 = self@;
        let r1 = self.add_node_edge(node::TEXTURE_COPY, node::MAIN_PASS);
        proof {
            assert(self@ == bt0.0 && r1 == bt0.1);
            if ok {
                lemma_node_id_is(gp1, tc_n, tc_i as int);
                lemma_node_id_is(gp1, mp_n, mp_i as int);
                crate::model::lemma_no_node_edge(gp1, edge_set, tc_i, mp_i);
                crate::model::lemma_no_slot_connection(gp1, edge_set, tc_i, mp_i);
                assert(tc_i != mp_i);
                lemma_not_reaches(gp1, edge_set, mp_i, tc_i);
                assert(r1 == Ok::<(), GraphError>(()));
                lemma_edges_exact_edge_push(
                    gp1,
                    Edge::NodeEdge { source: tc_i, target: mp_i },
                    edge_set,
                );
                edge_set = edge_set.insert(Edge::NodeEdge { source: tc_i, target: mp_i });
                assert(edges_exact(self@, edge_set));
            }
        }
        match r1 {
            Err(e) => {
                return Err(e);
            },
            Ok(_) => {},
        }
        let ghost gp2 = self@;
        let r2 = self.add_node_edge(node::SHARED_BUFFERS, node::MAIN_PASS);
        proof {
            assert(self@ == bt1.0 && r2 == bt1.1);
            if ok {
                lemma_node_id_is(gp2, sb_n, sb_i as int);
                lemma_node_id_is(gp2, mp_n, mp_i as int);
                assert(sb_i != tc_i && sb_i != mp_i);
                crate::model::lemma_no_node_edge(gp2, edge_set, sb_i, mp_i);
                crate::model::lemma_no_slot_connection(gp2, edge_set, sb_i, mp_i);
                lemma_not_reaches(gp2, edge_set, mp_i, sb_i);
                assert(r2 == Ok::<(), GraphError>(()));
                lemma_edges_exact_edge_push(
                    gp2,
                    Edge::NodeEdge { source: sb_i, target: mp_i },
                    edge_set,
                );
                edge_set = edge_set.insert(Edge::NodeEdge { source: sb_i, target: mp_i });
                assert(edges_exact(self@, edge_set));
            }
        }
        match r2 {
            Err(e) => {
                return Err(e);
            },
            Ok(_) => {},
        }
        if config.add_3d_camera {
            let ghost gp3 = self@;
            let r3 = self.add_node_edge(node::CAMERA3D, node::MAIN_PASS);
            proof {
                assert(self@ == bt2.0 && r3 == bt2.1);
                if ok {
                    lemma_node_id_is(gp3, c3_n, c3_i as int);
                    lemma_node_id_is(gp3, mp_n, mp_i as int);
                    assert(c3_i != tc_i && c3_i != sb_i && c3_i != mp_i);
                    crate::model::lemma_no_node_edge(gp3, edge_set, c3_i, mp_i);
                    crate::model::lemma_no_slot_connection(gp3, edge_set, c3_i, mp_i);
                    lemma_not_reaches(gp3, edge_set, mp_i, c3_i);
                    assert(r3 == Ok::<(), GraphError>(()));
                    lemma_edges_exact_edge_push(
                        gp3,
                        Edge::NodeEdge { source: c3_i, target: mp_i },
                        edge_set,
                    );
                    edge_set = edge_set.insert(Edge::NodeEdge { source: c3_i, target: mp_i });
                    assert(edges_exact(self@, edge_set));
                }
            }
            match r3 {
                Err(e) => {
                    return Err(e);
                },
                Ok(_) => {},
            }
        }
        proof {
            assert(self@ == bt2.0 && bt2.1 is Ok);
        }
        if config.add_2d_camera {
            let ghost gp4 = self@;
            let r4 = self.add_node_edge(node::CAMERA2D, node::MAIN_PASS);
            proof {
                assert(self@ == bt3.0 && r4 == bt3.1);
                if ok {
                    lemma_node_id_is(gp4, c2_n, c2_i as int);
                    lemma_node_id_is(gp4, mp_n, mp_i as int);
                    assert(c2_i != tc_i && c2_i != sb_i && c2_i != mp_i && (config.add_3d_camera
                        ==> c2_i != c3_i));
                    crate::model::lemma_no_node_edge(gp4, edge_set, c2_i, mp_i);
                    crate::model::lemma_no_slot_connection(gp4, edge_set, c2_i, mp_i);
                    lemma_not_reaches(gp4, edge_set, mp_i, c2_i);
                    assert(r4 == Ok::<(), GraphError>(()));
                    lemma_edges_exact_edge_push(
                        gp4,
                        Edge::NodeEdge { source: c2_i, target: mp_i },
                        edge_set,
                    );
                    edge_set = edge_set.insert(Edge::NodeEdge { source: c2_i, target: mp_i });
                    assert(edges_exact(self@, edge_set));
                }
            }
            match r4 {
                Err(e) => {
                    return Err(e);
                },
                Ok(_) => {},
            }
        }
        proof {
            assert(self@ == bt3.0 && bt3.1 is Ok);
            if ok {
                let gf = self@;
                lemma_node_id_is(gf, tc_n, tc_i as int);
                lemma_node_id_is(gf, sb_n, sb_i as int);
                lemma_node_id_is(gf, mp_n, mp_i as int);
                lemma_present_node_edge(gf, edge_set, tc_i, mp_i);
                lemma_present_node_edge(gf, edge_set, sb_i, mp_i);
                if config.add_3d_camera {
                    lemma_node_id_is(gf, c3_n, c3_i as int);
                    lemma_present_node_edge(gf, edge_set, c3_i, mp_i);
                }
                if config.add_2d_camera {
                    lemma_node_id_is(gf, c2_n, c2_i as int);
                    lemma_present_node_edge(gf, edge_set, c2_i, mp_i);
                }
                assert forall|k: int|
                    0 <= k < gf.edges.len() implies ((#[trigger] gf.edges[k]) matches Edge::NodeEdge {
                    source,
                    target,
                } && target == node_id(gf, "main_pass"@) && source != node_id(gf, "main_pass"@)
                    && source < gf.nodes.len() && (gf.nodes[source as int].name == "texture_copy"@
                    || gf.nodes[source as int].name == "shared_buffers"@ || gf.nodes[
                source as int].name == "camera3d"@ || gf.nodes[source as int].name
                    == "camera2d"@)) by {
                    assert(edge_set.contains(gf.edges[k]));
                }
                assert(orderings_done(gf, *config));
            }
        }
        Ok(())
    }
    /// Registers the swap chain node and the switched-on slot
    /// bindings into the main pass.
    #[verifier::rlimit(100)]
    fn base_connections_stage(&mut self, config: &BaseRenderGraphConfig) -> (r: Result<
        (),
        GraphError,
    >)
        requires
            old(self).wf(),
            old(self)@.nodes.len() + 1 <= usize::MAX,
        ensures
            final(self).wf(),
            connections_pre(old(self)@, *config) ==> ({
                &&& final(self)@.nodes.len() == old(self)@.nodes.len() + 1
                &&& forall|i: int|
                    0 <= i < old(self)@.nodes.len() ==> final(self)@.nodes[i] == old(self)@.nodes[i]
                &&& node_named(final(self)@, "swapchain"@)
                &&& forall|s: usize, t: usize|
                    has_node_edge(old(self)@, s, t) ==> has_node_edge(final(self)@, s, t)
                &&& (consistent(*config) ==> (r == Ok::<(), GraphError>(()) && final(self)@.edges.len() == old(self)@.edges.len() + 2 * one_if(
                    config.connect_main_pass_to_swapchain,
                ) + 2 * one_if(config.connect_main_pass_to_main_depth_texture) && (
                config.connect_main_pass_to_swapchain ==> (slot_edge_named(
                    final(self)@,
                    "swapchain"@,
                    "texture"@,
                    "main_pass"@,
                    "color"@,
                ) && node_edge_named(final(self)@, "swapchain"@, "main_pass"@))) && (
                config.connect_main_pass_to_main_depth_texture ==> (slot_edge_named(
                    final(self)@,
                    "main_pass_depth_texture"@,
                    "texture"@,
                    "main_pass"@,
                    "depth"@,
                ) && node_edge_named(final(self)@, "main_pass_depth_texture"@, "main_pass"@)))))
                &&& (!consistent(*config) ==> r == Err::<(), GraphError>(GraphError::NodeNotFound))
            }),
            final(self)@ == spec_base_connections(old(self)@, *config).0,
            r == spec_base_connections(old(self)@, *config).1,
    {
        let ghost g0 = self@;
        let ghost ct0 = spec_add_node(g0, "swapchain"@, Seq::empty(), texture_output());
        let ghost ct1 = if config.connect_main_pass_to_swapchain {
            step_slot_edge(
                ct0,
                "swapchain"@,
                SlotLabelModel::Name("texture"@),
                "main_pass"@,
                SlotLabelModel::Name("color"@),
            )
        } else {
            ct0
        };
        let ghost ct2 = if config.connect_main_pass_to_main_depth_texture {
            step_slot_edge(
                ct1,
                "main_pass_depth_texture"@,
                SlotLabelModel::Name("texture"@),
                "main_pass"@,
                SlotLabelModel::Name("depth"@),
            )
        } else {
            ct1
        };
        let ghost tc_n: Seq<char> = "texture_copy"@;
        let ghost dt_n: Seq<char> = "main_pass_depth_texture"@;
        let ghost mp_n: Seq<char> = "main_pass"@;
        let ghost sc_n: Seq<char> = "swapchain"@;
        let ghost pre = connections_pre(g0, *config);
        let ghost mut dt_i: usize = 0;
        let ghost mut mp_i: usize = 0;
        let ghost sc_i: usize = g0.nodes.len() as usize;
        proof {
            lemma_base_names_distinct();
            assert(crate::graph::slots_model(Seq::<SlotDescriptor>::empty())
                =~= Seq::<SlotModel>::empty());
            if pre {
                if config.add_main_pass {
                    mp_i = node_id(g0, mp_n);
                    lemma_node_id_in_range(g0, mp_n);
                }
                if config.add_main_depth_texture {
                    dt_i = node_id(g0, dt_n);
                    lemma_node_id_in_range(g0, dt_n);
                }
            }
        }
        let mut swap_out: Vec<SlotDescriptor> = Vec::new();
        swap_out.push(SlotDescriptor::new("texture", DataKind::Texture));
        proof {
            assert(crate::graph::slots_model(swap_out@) =~= seq![
                SlotModel { name: "texture"@, kind: DataKind::Texture },
            ]);
        }
        let rc = self.add_node(
            node::PRIMARY_SWAP_CHAIN,
            NodePorts { inputs: Vec::new(), outputs: swap_out },
        );
        proof {
            assert(self@ == ct0.0 && rc == ct0.1);
            if pre {
                assert(rc == Ok::<(), GraphError>(()));
                assert(self@.nodes == g0.nodes.push(self@.nodes[sc_i as int]));
                assert(self@.nodes[sc_i as int].name == sc_n);
                assert(self@.nodes[sc_i as int].outputs == seq![
                    SlotModel { name: "texture"@, kind: DataKind::Texture },
                ]);
                assert(self@.edges == g0.edges);
                if config.add_main_pass {
                    assert(self@.nodes[mp_i as int] == g0.nodes[mp_i as int]);
                } else {
                    crate::model::lemma_node_named_push(g0, self@.nodes[sc_i as int], mp_n);
                    assert(!node_named(self@, mp_n));
                }
                if config.add_main_depth_texture {
                    assert(self@.nodes[dt_i as int] == g0.nodes[dt_i as int]);
                } else {
                    crate::model::lemma_node_named_push(g0, self@.nodes[sc_i as int], dt_n);
                    assert(!node_named(self@, dt_n));
                }
            }
        }
        match rc {
            Err(e) => {
                return Err(e);
            },
            Ok(_) => {},
        }
        let ghost gc = self@;
        if config.connect_main_pass_to_swapchain {
            let rs = self.add_slot_edge(
                node::PRIMARY_SWAP_CHAIN,
                SlotLabel::named("texture"),
                node::MAIN_PASS,
                SlotLabel::named("color"),
            );
            proof {
                assert(self@ == ct1.0 && rs == ct1.1);
                if pre {
                    if !config.add_main_pass {
                        assert(rs == Err::<(), GraphError>(GraphError::NodeNotFound));
                    } else {
                        lemma_node_id_is(gc, sc_n, sc_i as int);
                        lemma_node_id_is(gc, mp_n, mp_i as int);
                        lemma_node_id_is(g0, mp_n, mp_i as int);
                        lemma_slot_id_is(gc.nodes[sc_i as int].outputs, "texture"@, 0);
                        lemma_slot_id_is(gc.nodes[mp_i as int].inputs, "color"@, 0);
                        assert forall|k: int|
                            0 <= k < gc.edges.len() implies (edge_source(#[trigger] gc.edges[k])
                            != mp_i && edge_source(gc.edges[k]) != sc_i && !(gc.edges[k]
                            matches Edge::SlotEdge { .. }) && gc.edges[k] != (Edge::NodeEdge {
                            source: sc_i,
                            target: mp_i,
                        })) by {
                            assert(g0.edges[k] == gc.edges[k]);
                        }
                        assert(!has_node_edge(gc, sc_i, mp_i)) by {
                            if has_node_edge(gc, sc_i, mp_i) {
                                let k = choose|k: int|
                                    0 <= k < gc.edges.len() && (#[trigger] gc.edges[k]) == (
                                    Edge::NodeEdge { source: sc_i, target: mp_i });
                            }
                        }
                        assert(!crate::model::slot_connected(gc, sc_i, mp_i)) by {
                            if crate::model::slot_connected(gc, sc_i, mp_i) {
                                let k = choose|k: int|
                                    0 <= k < gc.edges.len() && (#[trigger] gc.edges[k]
                                        matches Edge::SlotEdge { source, target, .. } && source
                                        == sc_i && target == mp_i);
                            }
                        }
                        assert(!crate::model::input_bound(gc, mp_i, 0)) by {
                            if crate::model::input_bound(gc, mp_i, 0) {
                                let k = choose|k: int|
                                    0 <= k < gc.edges.len() && (#[trigger] gc.edges[k]
                                        matches Edge::SlotEdge { target, target_index, .. }
                                        && target == mp_i && target_index == 0);
                            }
                        }
                        assert(!reaches(gc.edges, mp_i, sc_i)) by {
                            if reaches(gc.edges, mp_i, sc_i) {
                                lemma_no_outgoing(gc.edges, mp_i, sc_i);
                            }
                        }
                        assert(rs == Ok::<(), GraphError>(()));
                        assert(self@.edges == gc.edges.push(
                            Edge::SlotEdge {
                                source: sc_i,
                                source_index: 0,
                                target: mp_i,
                                target_index: 0,
                            },
                        ).push(Edge::NodeEdge { source: sc_i, target: mp_i }));
                        assert(self@.nodes == gc.nodes);
                    }
                }
            }
            match rs {
                Err(e) => {
                    proof {
                        if pre {
                            assert(node_named(self@, sc_n)) by {
                                assert(self@.nodes[sc_i as int].name == sc_n);
                            }
                            assert forall|k: int|
                                0 <= k < g0.edges.len() implies #[trigger] self@.edges[k]
                                == g0.edges[k] by {
                            }
                            assert forall|s: usize, t: usize|
                                has_node_edge(g0, s, t) implies has_node_edge(self@, s, t) by {
                                crate::model::lemma_has_node_edge_extend(g0, self@, s, t);
                            }
                        }
                    }
                    return Err(e);
                },
                Ok(_) => {},
            }
        }
        proof {
            assert(self@ == ct1.0 && ct1.1 is Ok);
        }
        let ghost gd = self@;
        if config.connect_main_pass_to_main_depth_texture {
            let rt = self.add_slot_edge(
                node::MAIN_DEPTH_TEXTURE,
                SlotLabel::named("texture"),
                node::MAIN_PASS,
                SlotLabel::named("depth"),
            );
            proof {
                assert(self@ == ct2.0 && rt == ct2.1);
                if pre {
                    if !config.add_main_pass {
                        assert(gd == gc);
                        assert(rt == Err::<(), GraphError>(GraphError::NodeNotFound));
                    } else if !config.add_main_depth_texture {
                        assert(gd.nodes == gc.nodes);
                        lemma_not_named_same_nodes(gc, gd, dt_n);
                        assert(rt == Err::<(), GraphError>(GraphError::NodeNotFound));
                    } else {
                        lemma_node_id_is(gd, dt_n, dt_i as int);
                        lemma_node_id_is(gd, mp_n, mp_i as int);
                        lemma_node_id_is(g0, mp_n, mp_i as int);
                        assert(gd.nodes[dt_i as int] == gc.nodes[dt_i as int]);
                        lemma_slot_id_is(gd.nodes[dt_i as int].outputs, "texture"@, 0);
                        lemma_slot_id_is(gd.nodes[mp_i as int].inputs, "depth"@, 1);
                        assert forall|k: int|
                            0 <= k < gd.edges.len() implies (edge_source(#[trigger] gd.edges[k])
                            != mp_i && edge_source(gd.edges[k]) != dt_i && !(gd.edges[k]
                            matches Edge::SlotEdge { source, target, .. } && source == dt_i
                            && target == mp_i) && !(gd.edges[k] matches Edge::SlotEdge {
                            target,
                            target_index,
                            ..
                        } && target == mp_i && target_index == 1) && gd.edges[k] != (
                        Edge::NodeEdge { source: dt_i, target: mp_i })) by {
                            if config.connect_main_pass_to_swapchain && k >= g0.edges.len() {
                            } else {
                                assert(gd.edges[k] == g0.edges[k]);
                                assert(g0.nodes[dt_i as int].name == dt_n);
                            }
                        }
                        assert(!has_node_edge(gd, dt_i, mp_i)) by {
                            if has_node_edge(gd, dt_i, mp_i) {
                                let k = choose|k: int|
                                    0 <= k < gd.edges.len() && (#[trigger] gd.edges[k]) == (
                                    Edge::NodeEdge { source: dt_i, target: mp_i });
                            }
                        }
                        assert(!crate::model::slot_connected(gd, dt_i, mp_i)) by {
                            if crate::model::slot_connected(gd, dt_i, mp_i) {
                                let k = choose|k: int|
                                    0 <= k < gd.edges.len() && (#[trigger] gd.edges[k]
                                        matches Edge::SlotEdge { source, target, .. } && source
                                        == dt_i && target == mp_i);
                            }
                        }
                        assert(!crate::model::input_bound(gd, mp_i, 1)) by {
                            if crate::model::input_bound(gd, mp_i, 1) {
                                let k = choose|k: int|
                                    0 <= k < gd.edges.len() && (#[trigger] gd.edges[k]
                                        matches Edge::SlotEdge { target, target_index, .. }
                                        && target == mp_i && target_index == 1);
                            }
                        }
                        assert(!reaches(gd.edges, mp_i, dt_i)) by {
                            if reaches(gd.edges, mp_i, dt_i) {
                                lemma_no_outgoing(gd.edges, mp_i, dt_i);
                            }
                        }
                        assert(rt == Ok::<(), GraphError>(()));
                        assert(self@.edges == gd.edges.push(
                            Edge::SlotEdge {
                                source: dt_i,
                                source_index: 0,
                                target: mp_i,
                                target_index: 1,
                            },
                        ).push(Edge::NodeEdge { source: dt_i, target: mp_i }));
                        assert(self@.nodes == gd.nodes);
                    }
                }
            }
            match rt {
                Err(e) => {
                    proof {
                        if pre {
                            assert(node_named(self@, sc_n)) by {
                                assert(self@.nodes[sc_i as int].name == sc_n);
                            }
                            assert forall|k: int|
                                0 <= k < g0.edges.len() implies #[trigger] self@.edges[k]
                                == g0.edges[k] by {
                            }
                            assert forall|s: usize, t: usize|
                                has_node_edge(g0, s, t) implies has_node_edge(self@, s, t) by {
                                crate::model::lemma_has_node_edge_extend(g0, self@, s, t);
                            }
                        }
                    }
                    return Err(e);
                },
                Ok(_) => {},
            }
        }
        proof {
            assert(self@ == ct2.0 && ct2.1 is Ok);
            if pre && consistent(*config) {
                let gf = self@;
                assert(gf.nodes == gc.nodes);
                assert forall|k: int|
                    0 <= k < g0.edges.len() implies #[trigger] gf.edges[k] == g0.edges[k] by {
                    assert(gd.edges[k] == g0.edges[k]);
                }
                assert forall|s: usize, t: usize|
                    has_node_edge(g0, s, t) implies has_node_edge(gf, s, t) by {
                    crate::model::lemma_has_node_edge_extend(g0, gf, s, t);
                }
                assert(node_named(gf, sc_n)) by {
                    assert(gf.nodes[sc_i as int].name == sc_n);
                }
                if config.connect_main_pass_to_swapchain {
                    lemma_node_id_is(gf, sc_n, sc_i as int);
                    lemma_node_id_is(gf, mp_n, mp_i as int);
                    lemma_slot_id_is(gf.nodes[sc_i as int].outputs, "texture"@, 0);
                    lemma_slot_id_is(gf.nodes[mp_i as int].inputs, "color"@, 0);
                    assert(gd.edges[g0.edges.len() as int] == (Edge::SlotEdge {
                        source: sc_i,
                        source_index: 0,
                        target: mp_i,
                        target_index: 0,
                    }));
                    assert(gd.edges[g0.edges.len() as int + 1] == (Edge::NodeEdge {
                        source: sc_i,
                        target: mp_i,
                    }));
                    assert(gf.edges[g0.edges.len() as int] == gd.edges[g0.edges.len() as int]);
                    assert(gf.edges[g0.edges.len() as int + 1] == gd.edges[g0.edges.len() as int
                        + 1]);
                    assert(has_slot_edge(gf, sc_i, 0, mp_i, 0));
                    assert(has_node_edge(gf, sc_i, mp_i));
                }
                if config.connect_main_pass_to_main_depth_texture {
                    lemma_node_id_is(gf, dt_n, dt_i as int);
                    lemma_node_id_is(gf, mp_n, mp_i as int);
                    lemma_slot_id_is(gf.nodes[dt_i as int].outputs, "texture"@, 0);
                    lemma_slot_id_is(gf.nodes[mp_i as int].inputs, "depth"@, 1);
                    assert(gf.edges[gd.edges.len() as int] == (Edge::SlotEdge {
                        source: dt_i,
                        source_index: 0,
                        target: mp_i,
                        target_index: 1,
                    }));
                    assert(gf.edges[gd.edges.len() as int + 1] == (Edge::NodeEdge {
                        source: dt_i,
                        target: mp_i,
                    }));
                    assert(has_slot_edge(gf, dt_i, 0, mp_i, 1));
                    assert(has_node_edge(gf, dt_i, mp_i));
                }
            }
            if pre && !consistent(*config) {
                // every inconsistent connection was refused and returned above
                assert(false);
            }
        }
        Ok(())
    }
}

/// Builds the base topology into a graph store.  The store gains a
/// common set of well-known nodes which lets independent render
/// plugins interoperate; `BaseRenderGraphConfig` customizes it.
pub trait BaseRenderGraphBuilder {
    /// The graph the builder holds, as a model.
    spec fn graph_model(&self) -> GraphModel;

    /// The builder's structural invariant.
    spec fn graph_wf(&self) -> bool;

    /// Registers the base topology: a texture copy node, a shared
    /// buffers node and the primary swap chain always; cameras, the
    /// main depth texture and the main pass when switched on; the main
    /// pass ordered after its suppliers and, when switched on, fed by
    /// the swap chain's texture and the depth texture.  The first
    /// refused registration aborts the build and its error is returned
    /// unchanged.
    fn add_base_graph(&mut self, config: &BaseRenderGraphConfig) -> (r: Result<(), GraphError>)
        requires
            old(self).graph_wf(),
            old(self).graph_model().nodes.len() + 7 <= usize::MAX,
        ensures
            final(self).graph_wf(),
            final(self).graph_model() == spec_add_base_graph(
                old(self).graph_model(),
                *config,
            ).0,
            r == spec_add_base_graph(old(self).graph_model(), *config).1,
            (old(self).graph_model().nodes.len() == 0 && consistent(*config)) ==> (r == Ok::<
                (),
                GraphError,
            >(()) && base_graph_shape(final(self).graph_model(), *config)),
            (old(self).graph_model().nodes.len() == 0 && !consistent(*config)) ==> r == Err::<
                (),
                GraphError,
            >(GraphError::NodeNotFound),
    ;
}

impl BaseRenderGraphBuilder for RenderGraph {
    open spec fn graph_model(&self) -> GraphModel {
        self@
    }

    open spec fn graph_wf(&self) -> bool {
        self.wf()
    }

    #[verifier::rlimit(100)]
    fn add_base_graph(&mut self, config: &BaseRenderGraphConfig) -> (r: Result<(), GraphError>) {
        let ghost g0 = self@;
        let ghost fresh = g0.nodes.len() == 0;
        let ghost chain_a = spec_base_nodes(g0, *config);
        let ghost chain_b = if config.add_main_pass && chain_a.1 is Ok {
            spec_base_orderings(chain_a.0, *config)
        } else {
            chain_a
        };
        let ghost chain_d = if chain_b.1 is Ok {
            spec_base_connections(chain_b.0, *config)
        } else {
            chain_b
        };
        let ghost tc_n: Seq<char> = "texture_copy"@;
        let ghost c3_n: Seq<char> = "camera3d"@;
        let ghost c2_n: Seq<char> = "camera2d"@;
        let ghost sb_n: Seq<char> = "shared_buffers"@;
        let ghost dt_n: Seq<char> = "main_pass_depth_texture"@;
        let ghost mp_n: Seq<char> = "main_pass"@;
        let ghost sc_n: Seq<char> = "swapchain"@;
        proof {
            lemma_base_names_distinct();
            if fresh {
                assert(g0.edges.len() == 0) by {
                    if g0.edges.len() > 0 {
                        assert(crate::model::edge_wf(g0, g0.edges[0]));
                    }
                }
            }
        }
        let ra = self.base_nodes_stage(config);
        proof {
            assert(self@ == chain_a.0 && ra == chain_a.1);
        }
        match ra {
            Err(e) => {
                return Err(e);
            },
            Ok(_) => {},
        }
        let ghost ga = self@;
        let ghost mut tc_i: usize = 0;
        let ghost mut c3_i: usize = 0;
        let ghost mut c2_i: usize = 0;
        let ghost mut sb_i: usize = 0;
        let ghost mut dt_i: usize = 0;
        let ghost mut mp_i: usize = 0;
        proof {
            if fresh {
                tc_i = node_id(ga, tc_n);
                sb_i = node_id(ga, sb_n);
                lemma_node_id_in_range(ga, tc_n);
                lemma_node_id_in_range(ga, sb_n);
                if config.add_3d_camera {
                    c3_i = node_id(ga, c3_n);
                    lemma_node_id_in_range(ga, c3_n);
                }
                if config.add_2d_camera {
                    c2_i = node_id(ga, c2_n);
                    lemma_node_id_in_range(ga, c2_n);
                }
                if config.add_main_depth_texture {
                    dt_i = node_id(ga, dt_n);
                    lemma_node_id_in_range(ga, dt_n);
                }
                if config.add_main_pass {
                    mp_i = node_id(ga, mp_n);
                    lemma_node_id_in_range(ga, mp_n);
                }
            }
        }
        if config.add_main_pass {
            let rb = self.base_orderings_stage(config);
            proof {
                assert(self@ == chain_b.0 && rb == chain_b.1);
            }
            match rb {
                Err(e) => {
                    return Err(e);
                },
                Ok(_) => {},
            }
        }
        let ghost gb = self@;
        proof {
            assert(gb == chain_b.0 && chain_b.1 is Ok);
            if fresh {
                assert(gb.nodes == ga.nodes);
                lemma_not_named_same_nodes(ga, gb, sc_n);
                if config.add_main_pass {
                    assert(orderings_done(gb, *config));
                    lemma_node_id_is(gb, mp_n, mp_i as int);
                    assert(gb.nodes[mp_i as int] == ga.nodes[mp_i as int]);
                } else {
                    lemma_not_named_same_nodes(ga, gb, mp_n);
                    assert(gb.edges.len() == 0);
                }
                if config.add_main_depth_texture {
                    lemma_node_id_is(gb, dt_n, dt_i as int);
                    assert(gb.nodes[dt_i as int] == ga.nodes[dt_i as int]);
                } else {
                    lemma_not_named_same_nodes(ga, gb, dt_n);
                }
                assert(connections_pre(gb, *config));
            }
        }
        let rc = self.base_connections_stage(config);
        proof {
            assert(self@ == chain_d.0 && rc == chain_d.1);
        }
        match rc {
            Err(e) => {
                proof {
                    if fresh {
                        assert(e == GraphError::NodeNotFound);
                        assert(!consistent(*config));
                    }
                }
                return Err(e);
            },
            Ok(_) => {},
        }
        proof {
            if fresh {
                let gf = self@;
                assert(consistent(*config));
                assert(gf.nodes.len() == base_node_count(*config));
                assert(gf.edges.len() == base_edge_count(*config));
                assert(node_named(gf, tc_n)) by {
                    assert(gf.nodes[tc_i as int] == gb.nodes[tc_i as int]);
                    assert(ga.nodes[tc_i as int].name == tc_n);
                }
                assert(node_named(gf, sb_n)) by {
                    assert(gf.nodes[sb_i as int] == gb.nodes[sb_i as int]);
                    assert(ga.nodes[sb_i as int].name == sb_n);
                }
                if config.add_3d_camera {
                    assert(node_named(gf, c3_n)) by {
                        assert(gf.nodes[c3_i as int] == gb.nodes[c3_i as int]);
                        assert(ga.nodes[c3_i as int].name == c3_n);
                    }
                }
                if config.add_2d_camera {
                    assert(node_named(gf, c2_n)) by {
                        assert(gf.nodes[c2_i as int] == gb.nodes[c2_i as int]);
                        assert(ga.nodes[c2_i as int].name == c2_n);
                    }
                }
                if config.add_main_depth_texture {
                    assert(node_named(gf, dt_n)) by {
                        assert(gf.nodes[dt_i as int] == gb.nodes[dt_i as int]);
                        assert(ga.nodes[dt_i as int].name == dt_n);
                    }
                }
                if config.add_main_pass {
                    assert(node_named(gf, mp_n)) by {
                        assert(gf.nodes[mp_i as int] == gb.nodes[mp_i as int]);
                        assert(ga.nodes[mp_i as int].name == mp_n);
                    }
                    lemma_node_id_is(gf, tc_n, tc_i as int);
                    lemma_node_id_is(gf, sb_n, sb_i as int);
                    lemma_node_id_is(gf, mp_n, mp_i as int);
                    lemma_node_id_is(gb, tc_n, tc_i as int);
                    lemma_node_id_is(gb, sb_n, sb_i as int);
                    assert(has_node_edge(gb, tc_i, mp_i));
                    assert(has_node_edge(gf, tc_i, mp_i));
                    assert(has_node_edge(gb, sb_i, mp_i));
                    assert(has_node_edge(gf, sb_i, mp_i));
                    if config.add_3d_camera {
                        lemma_node_id_is(gf, c3_n, c3_i as int);
                        lemma_node_id_is(gb, c3_n, c3_i as int);
                        assert(has_node_edge(gb, c3_i, mp_i));
                        assert(has_node_edge(gf, c3_i, mp_i));
                    }
                    if config.add_2d_camera {
                        lemma_node_id_is(gf, c2_n, c2_i as int);
                        lemma_node_id_is(gb, c2_n, c2_i as int);
                        assert(has_node_edge(gb, c2_i, mp_i));
                        assert(has_node_edge(gf, c2_i, mp_i));
                    }
                }
                assert(base_graph_shape(gf, *config));
            }
        }
        Ok(())
    }
}

} // verus!
