//! Laws that relate the graph operations to each other, proved once
//! over the graph model.  The executable operations promise exactly
//! the model outcomes these laws speak about, so each law carries over
//! to any sequence of calls on a real graph.

use vstd::prelude::*;
use crate::edge::Edge;
use crate::error::GraphError;
use crate::model::GraphModel;
use crate::model::NodeModel;
use crate::model::has_node_edge;
use crate::model::input_bound;
use crate::model::lemma_node_id_in_range;
use crate::model::lemma_node_id_is;
use crate::model::node_id;
use crate::model::node_named;
use crate::model::push_node;
use crate::model::resolve_slot;
use crate::model::slot_connected;
use crate::model::spec_add_node;
use crate::model::spec_add_node_edge;
use crate::model::spec_add_slot_edge;
use crate::model::wf;
use crate::reach::reaches;
use crate::slot::SlotLabelModel;
use crate::slot::SlotModel;

verus! {

/// Registering a fresh name succeeds and the node is then found under
/// that name, holding exactly what was registered; a taken name is
/// refused with `DuplicateNodeName` and the graph, the prior entry
/// included, is untouched.
pub proof fn law_register_then_lookup(
    g: GraphModel,
    name: Seq<char>,
    inputs: Seq<SlotModel>,
    outputs: Seq<SlotModel>,
)
    requires
        wf(g),
        g.nodes.len() < usize::MAX,
    ensures
        !node_named(g, name) ==> ({
            let g2 = spec_add_node(g, name, inputs, outputs).0;
            &&& spec_add_node(g, name, inputs, outputs).1 == Ok::<(), GraphError>(())
            &&& node_named(g2, name)
            &&& g2.nodes[node_id(g2, name) as int] == (NodeModel { name, inputs, outputs })
            &&& g2.nodes =~= g.nodes.push(NodeModel { name, inputs, outputs })
            &&& g2.edges == g.edges
        }),
        node_named(g, name) ==> spec_add_node(g, name, inputs, outputs) == (
            g,
            Err::<(), GraphError>(GraphError::DuplicateNodeName),
        ),
{
    if !node_named(g, name) {
        let n = NodeModel { name, inputs, outputs };
        let g2 = push_node(g, n);
        assert forall|i: int, j: int|
            0 <= i < j < g2.nodes.len() implies g2.nodes[i].name != g2.nodes[j].name by {
            if j < g.nodes.len() {
                assert(g.nodes[i].name != g.nodes[j].name);
            } else {
                assert(g2.nodes[j] == n);
                assert(g.nodes[i].name == g2.nodes[i].name);
                if g2.nodes[i].name == name {
                    assert(node_named(g, name));
                }
            }
        }
        lemma_node_id_is(g2, name, g.nodes.len() as int);
    }
}

/// A node edge registers once: on a graph where both nodes exist, no
/// edge connects them yet and the new edge closes no cycle, the first
/// call commits exactly that edge; the identical second call is
/// refused with `EdgeAlreadyExists` and changes nothing, so the edge
/// set after both calls is the edge set after the first alone.
pub proof fn law_node_edge_idempotent(g: GraphModel, sname: Seq<char>, tname: Seq<char>)
    requires
        wf(g),
        node_named(g, sname),
        node_named(g, tname),
        !has_node_edge(g, node_id(g, sname), node_id(g, tname)),
        !slot_connected(g, node_id(g, sname), node_id(g, tname)),
        !reaches(g.edges, node_id(g, tname), node_id(g, sname)),
    ensures
        spec_add_node_edge(g, sname, tname).1 == Ok::<(), GraphError>(()),
        spec_add_node_edge(g, sname, tname).0.edges == g.edges.push(
            Edge::NodeEdge { source: node_id(g, sname), target: node_id(g, tname) },
        ),
        spec_add_node_edge(spec_add_node_edge(g, sname, tname).0, sname, tname).1 == Err::<
            (),
            GraphError,
        >(GraphError::EdgeAlreadyExists),
        spec_add_node_edge(spec_add_node_edge(g, sname, tname).0, sname, tname).0
            == spec_add_node_edge(g, sname, tname).0,
{
    let s = node_id(g, sname);
    let t = node_id(g, tname);
    let e = Edge::NodeEdge { source: s, target: t };
    let g2 = spec_add_node_edge(g, sname, tname).0;
    assert(g2.edges == g.edges.push(e));
    assert(g2.nodes == g.nodes);
    lemma_node_id_in_range(g, sname);
    lemma_node_id_in_range(g, tname);
    lemma_node_id_is(g2, sname, s as int);
    lemma_node_id_is(g2, tname, t as int);
    assert(g2.edges[g.edges.len() as int] == e);
    assert(has_node_edge(g2, s, t));
    assert(!slot_connected(g2, s, t)) by {
        if slot_connected(g2, s, t) {
            let k = choose|k: int|
                0 <= k < g2.edges.len() && (#[trigger] g2.edges[k] matches Edge::SlotEdge {
                    source,
                    target,
                    ..
                } && source == s && target == t);
            if k < g.edges.len() {
                assert(g.edges[k] == g2.edges[k]);
            }
        }
    }
}

/// A target input slot takes at most one binding: once a slot edge
/// feeds it, any further slot edge naming the same target slot is
/// refused with `SlotAlreadyBound`, whichever source node and output
/// slot it names, and the graph is unchanged.
pub proof fn law_input_binds_once(
    g: GraphModel,
    sname: Seq<char>,
    slabel: SlotLabelModel,
    tname: Seq<char>,
    tlabel: SlotLabelModel,
    sname2: Seq<char>,
    slabel2: SlotLabelModel,
)
    requires
        wf(g),
        spec_add_slot_edge(g, sname, slabel, tname, tlabel).1 == Ok::<(), GraphError>(()),
        node_named(g, sname2),
        ({
            let s2 = node_id(g, sname2);
            let t = node_id(g, tname);
            let so2 = resolve_slot(g.nodes[s2 as int].outputs, slabel2);
            let ti = resolve_slot(g.nodes[t as int].inputs, tlabel);
            &&& so2 is Some
            &&& g.nodes[s2 as int].outputs[so2->0 as int].kind == g.nodes[t as int].inputs[ti->0 as int].kind
        }),
    ensures
        spec_add_slot_edge(
            spec_add_slot_edge(g, sname, slabel, tname, tlabel).0,
            sname2,
            slabel2,
            tname,
            tlabel,
        ).1 == Err::<(), GraphError>(GraphError::SlotAlreadyBound),
        spec_add_slot_edge(
            spec_add_slot_edge(g, sname, slabel, tname, tlabel).0,
            sname2,
            slabel2,
            tname,
            tlabel,
        ).0 == spec_add_slot_edge(g, sname, slabel, tname, tlabel).0,
{
    let s = node_id(g, sname);
    let t = node_id(g, tname);
    let s2 = node_id(g, sname2);
    let si = resolve_slot(g.nodes[s as int].outputs, slabel)->0;
    let tix = resolve_slot(g.nodes[t as int].inputs, tlabel)->0;
    let se = Edge::SlotEdge { source: s, source_index: si, target: t, target_index: tix };
    let g2 = spec_add_slot_edge(g, sname, slabel, tname, tlabel).0;
    assert(g2.nodes == g.nodes);
    assert(g2.edges[g.edges.len() as int] == se);
    lemma_node_id_in_range(g, sname2);
    lemma_node_id_in_range(g, tname);
    lemma_node_id_is(g2, sname2, s2 as int);
    lemma_node_id_is(g2, tname, t as int);
    assert(input_bound(g2, t, tix));
}

/// Slot kinds decide deterministically: whenever both nodes exist and
/// both slot references resolve, a kind mismatch is always refused
/// with `SlotKindMismatch`, whatever else the graph holds, and the
/// graph is unchanged.
pub proof fn law_kind_mismatch(
    g: GraphModel,
    sname: Seq<char>,
    slabel: SlotLabelModel,
    tname: Seq<char>,
    tlabel: SlotLabelModel,
)
    requires
        wf(g),
        node_named(g, sname),
        node_named(g, tname),
        ({
            let s = node_id(g, sname);
            let t = node_id(g, tname);
            let so = resolve_slot(g.nodes[s as int].outputs, slabel);
            let ti = resolve_slot(g.nodes[t as int].inputs, tlabel);
            &&& so is Some
            &&& ti is Some
            &&& g.nodes[s as int].outputs[so->0 as int].kind != g.nodes[t as int].inputs[ti->0 as int].kind
        }),
    ensures
        spec_add_slot_edge(g, sname, slabel, tname, tlabel) == (
            g,
            Err::<(), GraphError>(GraphError::SlotKindMismatch),
        ),
{
}

/// An ordering edge between two existing, not yet connected nodes
/// succeeds exactly when the target does not already lead back to the
/// source; otherwise it is refused with `WouldCreateCycle` and the
/// graph is unchanged.
pub proof fn law_node_edge_cycle_guard(g: GraphModel, sname: Seq<char>, tname: Seq<char>)
    requires
        wf(g),
        node_named(g, sname),
        node_named(g, tname),
        !has_node_edge(g, node_id(g, sname), node_id(g, tname)),
        !slot_connected(g, node_id(g, sname), node_id(g, tname)),
    ensures
        reaches(g.edges, node_id(g, tname), node_id(g, sname)) ==> spec_add_node_edge(
            g,
            sname,
            tname,
        ) == (g, Err::<(), GraphError>(GraphError::WouldCreateCycle)),
        !reaches(g.edges, node_id(g, tname), node_id(g, sname)) ==> ({
            &&& spec_add_node_edge(g, sname, tname).1 == Ok::<(), GraphError>(())
            &&& spec_add_node_edge(g, sname, tname).0.edges == g.edges.push(
                Edge::NodeEdge { source: node_id(g, sname), target: node_id(g, tname) },
            )
        }),
{
}

} // verus!
