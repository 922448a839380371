//! The mathematical model of a render graph: what a graph holds, when
//! it is well formed, and what each mutation does.  The executable
//! operations in `graph` promise exactly the outcomes written here.

use vstd::prelude::*;
use crate::edge::Edge;
use crate::edge::edge_source;
use crate::edge::edge_target;
use crate::error::GraphError;
use crate::reach::acyclic;
use crate::reach::connects;
use crate::reach::reaches;
use crate::slot::SlotLabelModel;
use crate::slot::SlotModel;

verus! {

/// Mathematical image of one registered node: its name and its two
/// ordered slot lists.
#[verifier::ext_equal]
pub ghost struct NodeModel {
    pub name: Seq<char>,
    pub inputs: Seq<SlotModel>,
    pub outputs: Seq<SlotModel>,
}

/// Mathematical image of a whole graph: the registered nodes, in
/// registration order, and every edge, in registration order.
#[verifier::ext_equal]
pub ghost struct GraphModel {
    pub nodes: Seq<NodeModel>,
    pub edges: Seq<Edge>,
}

/// Some node carries this name.
pub open spec fn node_named(g: GraphModel, name: Seq<char>) -> bool {
    exists|i: int| 0 <= i < g.nodes.len() && g.nodes[i].name == name
}

/// The position of the node carrying `name`; meaningful only when such
/// a node exists and node names are distinct.
pub open spec fn node_id(g: GraphModel, name: Seq<char>) -> usize {
    (choose|i: int| 0 <= i < g.nodes.len() && g.nodes[i].name == name) as usize
}

/// A slot list holds a slot of this name.
pub open spec fn slot_named(slots: Seq<SlotModel>, name: Seq<char>) -> bool {
    exists|i: int| 0 <= i < slots.len() && slots[i].name == name
}

/// The position of the slot carrying `name`; meaningful only when such
/// a slot exists and slot names are distinct.
pub open spec fn slot_id(slots: Seq<SlotModel>, name: Seq<char>) -> usize {
    (choose|i: int| 0 <= i < slots.len() && slots[i].name == name) as usize
}

/// Resolves a slot reference against a slot list: an index must be in
/// bounds, a name must occur in the list.
pub open spec fn resolve_slot(slots: Seq<SlotModel>, label: SlotLabelModel) -> Option<usize> {
    match label {
        SlotLabelModel::Index(i) => if i < slots.len() {
            Some(i)
        } else {
            None
        },
        SlotLabelModel::Name(n) => if slot_named(slots, n) {
            Some(slot_id(slots, n))
        } else {
            None
        },
    }
}

/// The identical node edge is registered.
pub open spec fn has_node_edge(g: GraphModel, s: usize, t: usize) -> bool {
    exists|k: int|
        0 <= k < g.edges.len() && (#[trigger] g.edges[k]) == (Edge::NodeEdge {
            source: s,
            target: t,
        })
}

/// Some slot edge runs from node `s` to node `t`.
pub open spec fn slot_connected(g: GraphModel, s: usize, t: usize) -> bool {
    exists|k: int|
        0 <= k < g.edges.len() && (#[trigger] g.edges[k] matches Edge::SlotEdge {
            source,
            target,
            ..
        } && source == s && target == t)
}

/// Input slot `ti` of node `t` is already fed by some slot edge.
pub open spec fn input_bound(g: GraphModel, t: usize, ti: usize) -> bool {
    exists|k: int|
        0 <= k < g.edges.len() && (#[trigger] g.edges[k] matches Edge::SlotEdge {
            target,
            target_index,
            ..
        } && target == t && target_index == ti)
}

/// The identical slot edge is registered.
pub open spec fn has_slot_edge(g: GraphModel, s: usize, si: usize, t: usize, ti: usize) -> bool {
    exists|k: int|
        0 <= k < g.edges.len() && (#[trigger] g.edges[k]) == (Edge::SlotEdge {
            source: s,
            source_index: si,
            target: t,
            target_index: ti,
        })
}

/// No two slots of the list share a name.
pub open spec fn distinct_slot_names(slots: Seq<SlotModel>) -> bool {
    forall|i: int, j: int| 0 <= i < j < slots.len() ==> slots[i].name != slots[j].name
}

/// An edge points at real nodes and, for a slot edge, at real slots of
/// equal kind.
pub open spec fn edge_wf(g: GraphModel, e: Edge) -> bool {
    match e {
        Edge::NodeEdge { source, target } => source < g.nodes.len() && target < g.nodes.len(),
        Edge::SlotEdge { source, source_index, target, target_index } => {
            &&& source < g.nodes.len()
            &&& target < g.nodes.len()
            &&& source_index < g.nodes[source as int].outputs.len()
            &&& target_index < g.nodes[target as int].inputs.len()
            &&& g.nodes[source as int].outputs[source_index as int].kind == g.nodes[target as int].inputs[target_index as int].kind
        },
    }
}

/// No input slot is fed by two slot edges.
pub open spec fn bindings_unique(edges: Seq<Edge>) -> bool {
    forall|k: int, l: int|
        0 <= k < l < edges.len() ==> !(#[trigger] edges[k] matches Edge::SlotEdge {
            target: t1,
            target_index: i1,
            ..
        } && #[trigger] edges[l] matches Edge::SlotEdge {
            target: t2,
            target_index: i2,
            ..
        } && t1 == t2 && i1 == i2)
}

/// The invariant every graph satisfies: distinct node names, distinct
/// slot names per list, edges that point at real nodes and compatible
/// slots, no duplicate edge, no doubly fed input, and no cycle.
pub open spec fn wf(g: GraphModel) -> bool {
    &&& g.nodes.len() <= usize::MAX
    &&& forall|i: int, j: int|
        0 <= i < j < g.nodes.len() ==> g.nodes[i].name != g.nodes[j].name
    &&& forall|i: int|
        0 <= i < g.nodes.len() ==> (#[trigger] g.nodes[i]).inputs.len() <= usize::MAX
            && g.nodes[i].outputs.len() <= usize::MAX
    &&& forall|i: int|
        0 <= i < g.nodes.len() ==> distinct_slot_names((#[trigger] g.nodes[i]).inputs)
            && distinct_slot_names(g.nodes[i].outputs)
    &&& forall|k: int| 0 <= k < g.edges.len() ==> edge_wf(g, #[trigger] g.edges[k])
    &&& forall|k: int, l: int| 0 <= k < l < g.edges.len() ==> g.edges[k] != g.edges[l]
    &&& bindings_unique(g.edges)
    &&& acyclic(g.edges)
}

/// The graph grown by one node.
pub open spec fn push_node(g: GraphModel, n: NodeModel) -> GraphModel {
    GraphModel { nodes: g.nodes.push(n), edges: g.edges }
}

/// The graph grown by one edge.
pub open spec fn push_edge(g: GraphModel, e: Edge) -> GraphModel {
    GraphModel { nodes: g.nodes, edges: g.edges.push(e) }
}

/// Outcome of `add_node`: the new graph and the returned result.  A
/// taken name is refused; otherwise the node is appended.
pub open spec fn spec_add_node(
    g: GraphModel,
    name: Seq<char>,
    inputs: Seq<SlotModel>,
    outputs: Seq<SlotModel>,
) -> (GraphModel, Result<(), GraphError>) {
    if node_named(g, name) {
        (g, Err(GraphError::DuplicateNodeName))
    } else {
        (push_node(g, NodeModel { name, inputs, outputs }), Ok(()))
    }
}

/// Outcome of `add_node_edge`.  Both endpoints must exist.  A slot
/// edge between the same nodes already orders them, so the call
/// succeeds as a silent no-op; short of that, the identical node edge
/// must not already be registered, and an edge whose target already
/// leads back to its source is refused; otherwise the node edge is
/// appended.
pub open spec fn spec_add_node_edge(g: GraphModel, sname: Seq<char>, tname: Seq<char>) -> (
    GraphModel,
    Result<(), GraphError>,
) {
    if !(node_named(g, sname) && node_named(g, tname)) {
        (g, Err(GraphError::NodeNotFound))
    } else {
        let s = node_id(g, sname);
        let t = node_id(g, tname);
        if slot_connected(g, s, t) {
            (g, Ok(()))
        } else if has_node_edge(g, s, t) {
            (g, Err(GraphError::EdgeAlreadyExists))
        } else if reaches(g.edges, t, s) {
            (g, Err(GraphError::WouldCreateCycle))
        } else {
            (push_edge(g, Edge::NodeEdge { source: s, target: t }), Ok(()))
        }
    }
}

/// Outcome of `add_slot_edge`.  Both endpoints must exist, the slot
/// references must resolve, the two slots must carry the same kind,
/// the target input must still be free, and the edge must not close a
/// cycle; then the slot edge is appended, together with the node edge
/// it induces unless that node edge is already registered.
pub open spec fn spec_add_slot_edge(
    g: GraphModel,
    sname: Seq<char>,
    slabel: SlotLabelModel,
    tname: Seq<char>,
    tlabel: SlotLabelModel,
) -> (GraphModel, Result<(), GraphError>) {
    if !(node_named(g, sname) && node_named(g, tname)) {
        (g, Err(GraphError::NodeNotFound))
    } else {
        let s = node_id(g, sname);
        let t = node_id(g, tname);
        let so = resolve_slot(g.nodes[s as int].outputs, slabel);
        let ti = resolve_slot(g.nodes[t as int].inputs, tlabel);
        if so is None || ti is None {
            (g, Err(GraphError::SlotNotFound))
        } else {
            let si = so->0;
            let tix = ti->0;
            if g.nodes[s as int].outputs[si as int].kind != g.nodes[t as int].inputs[tix as int].kind {
                (g, Err(GraphError::SlotKindMismatch))
            } else if input_bound(g, t, tix) {
                (g, Err(GraphError::SlotAlreadyBound))
            } else if reaches(g.edges, t, s) {
                (g, Err(GraphError::WouldCreateCycle))
            } else {
                let with_slot = push_edge(
                    g,
                    Edge::SlotEdge { source: s, source_index: si, target: t, target_index: tix },
                );
                if has_node_edge(g, s, t) {
                    (with_slot, Ok(()))
                } else {
                    (push_edge(with_slot, Edge::NodeEdge { source: s, target: t }), Ok(()))
                }
            }
        }
    }
}

/// The edges that point at node `t`, in registration order.
pub open spec fn edges_into(edges: Seq<Edge>, t: usize) -> Seq<Edge>
    decreases edges.len(),
{
    if edges.len() == 0 {
        Seq::empty()
    } else {
        let rest = edges_into(edges.drop_last(), t);
        if edge_target(edges.last()) == t {
            rest.push(edges.last())
        } else {
            rest
        }
    }
}

/// The edges that leave node `s`, in registration order.
pub open spec fn edges_out_of(edges: Seq<Edge>, s: usize) -> Seq<Edge>
    decreases edges.len(),
{
    if edges.len() == 0 {
        Seq::empty()
    } else {
        let rest = edges_out_of(edges.drop_last(), s);
        if edge_source(edges.last()) == s {
            rest.push(edges.last())
        } else {
            rest
        }
    }
}

/// Under distinct node names, `node_id` is the one index that carries
/// the name.
pub proof fn lemma_node_id_is(g: GraphModel, name: Seq<char>, i: int)
    requires
        forall|a: int, b: int| 0 <= a < b < g.nodes.len() ==> g.nodes[a].name != g.nodes[b].name,
        g.nodes.len() <= usize::MAX,
        0 <= i < g.nodes.len(),
        g.nodes[i].name == name,
    ensures
        node_named(g, name),
        node_id(g, name) == i,
{
    assert(node_named(g, name));
    let j = choose|j: int| 0 <= j < g.nodes.len() && g.nodes[j].name == name;
    if i < j {
        assert(g.nodes[i].name != g.nodes[j].name);
    } else if j < i {
        assert(g.nodes[j].name != g.nodes[i].name);
    }
}

/// Under distinct slot names, `slot_id` is the one index that carries
/// the name.
pub proof fn lemma_slot_id_is(slots: Seq<SlotModel>, name: Seq<char>, i: int)
    requires
        distinct_slot_names(slots),
        slots.len() <= usize::MAX,
        0 <= i < slots.len(),
        slots[i].name == name,
    ensures
        slot_named(slots, name),
        slot_id(slots, name) == i,
{
    assert(slot_named(slots, name));
    let j = choose|j: int| 0 <= j < slots.len() && slots[j].name == name;
    if i < j {
        assert(slots[i].name != slots[j].name);
    } else if j < i {
        assert(slots[j].name != slots[i].name);
    }
}

/// Appending a node neither renames nor moves the nodes already there.
pub proof fn lemma_node_named_push(g: GraphModel, n: NodeModel, name: Seq<char>)
    ensures
        node_named(push_node(g, n), name) <==> (node_named(g, name) || n.name == name),
{
    let g2 = push_node(g, n);
    if node_named(g2, name) {
        let i = choose|i: int| 0 <= i < g2.nodes.len() && g2.nodes[i].name == name;
        if i < g.nodes.len() {
            assert(g.nodes[i].name == name);
        } else {
            assert(g2.nodes[i] == n);
        }
    }
    if node_named(g, name) {
        let i = choose|i: int| 0 <= i < g.nodes.len() && g.nodes[i].name == name;
        assert(g2.nodes[i].name == name);
    }
    if n.name == name {
        assert(g2.nodes[g.nodes.len() as int].name == name);
    }
}

/// Every node name comes from the given set.  Used to track, while a
/// concrete graph is assembled, which names can already be taken.
pub open spec fn names_among(g: GraphModel, allowed: Set<Seq<char>>) -> bool {
    forall|i: int| 0 <= i < g.nodes.len() ==> allowed.contains((#[trigger] g.nodes[i]).name)
}

/// The edge list holds exactly the edges of the given set (membership
/// in both directions; multiplicity is not tracked).  Used to follow a
/// concrete graph through its assembly.
pub open spec fn edges_exact(g: GraphModel, s: Set<Edge>) -> bool {
    &&& forall|k: int| 0 <= k < g.edges.len() ==> s.contains(#[trigger] g.edges[k])
    &&& forall|e: Edge|
        #[trigger] s.contains(e) ==> exists|k: int|
            0 <= k < g.edges.len() && (#[trigger] g.edges[k]) == e
}

/// Growing the node list by one name grows the name set by it.
pub proof fn lemma_names_among_grow(
    g1: GraphModel,
    g2: GraphModel,
    allowed: Set<Seq<char>>,
    nm: Seq<char>,
)
    requires
        names_among(g1, allowed),
        g2.nodes.len() == g1.nodes.len() + 1,
        forall|i: int| 0 <= i < g1.nodes.len() ==> g2.nodes[i] == g1.nodes[i],
        g2.nodes[g1.nodes.len() as int].name == nm,
    ensures
        names_among(g2, allowed.insert(nm)),
{
    assert forall|i: int|
        0 <= i < g2.nodes.len() implies allowed.insert(nm).contains(
        (#[trigger] g2.nodes[i]).name,
    ) by {
        if i < g1.nodes.len() {
            assert(allowed.contains(g1.nodes[i].name));
        }
    }
}

/// A name outside the set is not taken.
pub proof fn lemma_not_named(g: GraphModel, allowed: Set<Seq<char>>, nm: Seq<char>)
    requires
        names_among(g, allowed),
        !allowed.contains(nm),
    ensures
        !node_named(g, nm),
{
    if node_named(g, nm) {
        let i = choose|i: int| 0 <= i < g.nodes.len() && g.nodes[i].name == nm;
        assert(allowed.contains(g.nodes[i].name));
    }
}

/// Appending an edge adds it to the exact edge set.
pub proof fn lemma_edges_exact_edge_push(g: GraphModel, e: Edge, s: Set<Edge>)
    requires
        edges_exact(g, s),
    ensures
        edges_exact(push_edge(g, e), s.insert(e)),
{
    let g2 = push_edge(g, e);
    let s2 = s.insert(e);
    assert forall|k: int| 0 <= k < g2.edges.len() implies s2.contains(#[trigger] g2.edges[k]) by {
        if k < g.edges.len() {
            assert(g2.edges[k] == g.edges[k]);
            assert(s.contains(g.edges[k]));
        } else {
            assert(g2.edges[k] == e);
        }
    }
    assert forall|x: Edge| #[trigger] s2.contains(x) implies exists|k: int|
        0 <= k < g2.edges.len() && (#[trigger] g2.edges[k]) == x by {
        if x == e {
            assert(g2.edges[g.edges.len() as int] == x);
        } else {
            assert(s.contains(x));
            let k = choose|k: int| 0 <= k < g.edges.len() && (#[trigger] g.edges[k]) == x;
            assert(g2.edges[k] == x);
        }
    }
}

/// An exact edge set without the node edge means the node edge is not
/// registered.
pub proof fn lemma_no_node_edge(g: GraphModel, s: Set<Edge>, a: usize, b: usize)
    requires
        edges_exact(g, s),
        !s.contains(Edge::NodeEdge { source: a, target: b }),
    ensures
        !has_node_edge(g, a, b),
{
    if has_node_edge(g, a, b) {
        let k = choose|k: int|
            0 <= k < g.edges.len() && (#[trigger] g.edges[k]) == (Edge::NodeEdge {
                source: a,
                target: b,
            });
        assert(s.contains(g.edges[k]));
    }
}

/// An exact edge set with no slot edge from `a` to `b` means no slot
/// edge connects them.
pub proof fn lemma_no_slot_connection(g: GraphModel, s: Set<Edge>, a: usize, b: usize)
    requires
        edges_exact(g, s),
        forall|e: Edge|
            s.contains(e) ==> !(e matches Edge::SlotEdge { source, target, .. } && source == a
                && target == b),
    ensures
        !slot_connected(g, a, b),
{
    if slot_connected(g, a, b) {
        let k = choose|k: int|
            0 <= k < g.edges.len() && (#[trigger] g.edges[k] matches Edge::SlotEdge {
                source,
                target,
                ..
            } && source == a && target == b);
        assert(s.contains(g.edges[k]));
    }
}

/// A node no edge of the exact set leaves cannot lead anywhere else.
pub proof fn lemma_not_reaches(g: GraphModel, s: Set<Edge>, from: usize, to: usize)
    requires
        edges_exact(g, s),
        forall|e: Edge| s.contains(e) ==> edge_source(e) != from,
        from != to,
    ensures
        !reaches(g.edges, from, to),
{
    assert forall|k: int|
        0 <= k < g.edges.len() implies edge_source(#[trigger] g.edges[k]) != from by {
        assert(s.contains(g.edges[k]));
    }
    if reaches(g.edges, from, to) {
        crate::reach::lemma_no_outgoing(g.edges, from, to);
    }
}

/// A node edge of the exact set is registered.
pub proof fn lemma_present_node_edge(g: GraphModel, s: Set<Edge>, a: usize, b: usize)
    requires
        edges_exact(g, s),
        s.contains(Edge::NodeEdge { source: a, target: b }),
    ensures
        has_node_edge(g, a, b),
{
}

/// A registered node edge stays registered when the edge list grows
/// at the end.
pub proof fn lemma_has_node_edge_extend(g1: GraphModel, g2: GraphModel, s: usize, t: usize)
    requires
        has_node_edge(g1, s, t),
        g1.edges.len() <= g2.edges.len(),
        forall|k: int| 0 <= k < g1.edges.len() ==> g2.edges[k] == g1.edges[k],
    ensures
        has_node_edge(g2, s, t),
{
    let k = choose|k: int|
        0 <= k < g1.edges.len() && (#[trigger] g1.edges[k]) == (Edge::NodeEdge {
            source: s,
            target: t,
        });
    assert(g2.edges[k] == g1.edges[k]);
}

/// A node that is absent stays absent when only other names join.
pub proof fn lemma_not_named_same_nodes(g1: GraphModel, g2: GraphModel, nm: Seq<char>)
    requires
        !node_named(g1, nm),
        g2.nodes == g1.nodes,
    ensures
        !node_named(g2, nm),
{
    if node_named(g2, nm) {
        let i = choose|i: int| 0 <= i < g2.nodes.len() && g2.nodes[i].name == nm;
        assert(g1.nodes[i] == g2.nodes[i]);
    }
}

/// A name that is present resolves to an index inside the node list,
/// and that index carries the name.
pub proof fn lemma_node_id_in_range(g: GraphModel, name: Seq<char>)
    requires
        node_named(g, name),
        g.nodes.len() <= usize::MAX,
    ensures
        node_id(g, name) < g.nodes.len(),
        g.nodes[node_id(g, name) as int].name == name,
{
    let i = choose|i: int| 0 <= i < g.nodes.len() && g.nodes[i].name == name;
    assert(node_id(g, name) == i as usize);
}

/// A slot name that is present resolves to an index inside the list,
/// and that index carries the name.
pub proof fn lemma_slot_id_in_range(slots: Seq<SlotModel>, name: Seq<char>)
    requires
        slot_named(slots, name),
        slots.len() <= usize::MAX,
    ensures
        slot_id(slots, name) < slots.len(),
        slots[slot_id(slots, name) as int].name == name,
{
    let i = choose|i: int| 0 <= i < slots.len() && slots[i].name == name;
    assert(slot_id(slots, name) == i as usize);
}

/// A resolved slot reference is an index into the list.
pub proof fn lemma_resolve_slot_in_range(slots: Seq<SlotModel>, label: SlotLabelModel)
    requires
        slots.len() <= usize::MAX,
        resolve_slot(slots, label) is Some,
    ensures
        (resolve_slot(slots, label)->0) < slots.len(),
{
    match label {
        SlotLabelModel::Index(_) => {},
        SlotLabelModel::Name(n) => {
            lemma_slot_id_in_range(slots, n);
        },
    }
}

/// `add_node` keeps the graph well formed.
pub proof fn lemma_add_node_wf(
    g: GraphModel,
    name: Seq<char>,
    inputs: Seq<SlotModel>,
    outputs: Seq<SlotModel>,
)
    requires
        wf(g),
        g.nodes.len() < usize::MAX,
        distinct_slot_names(inputs),
        distinct_slot_names(outputs),
        inputs.len() <= usize::MAX,
        outputs.len() <= usize::MAX,
    ensures
        wf(spec_add_node(g, name, inputs, outputs).0),
{
    if !node_named(g, name) {
        let n = NodeModel { name, inputs, outputs };
        let g2 = push_node(g, n);
        assert forall|i: int, j: int|
            0 <= i < j < g2.nodes.len() implies g2.nodes[i].name != g2.nodes[j].name by {
            if j < g.nodes.len() {
                assert(g.nodes[i].name != g.nodes[j].name);
            } else {
                assert(g2.nodes[j] == n);
                assert(g.nodes[i].name == g2.nodes[i].name);
                if g2.nodes[i].name == name {
                    assert(node_named(g, name));
                }
            }
        }
        assert forall|k: int| 0 <= k < g2.edges.len() implies edge_wf(g2, #[trigger] g2.edges[k]) by {
            assert(edge_wf(g, g.edges[k]));
            match g.edges[k] {
                Edge::NodeEdge { .. } => {},
                Edge::SlotEdge { source, target, .. } => {
                    assert(g2.nodes[source as int] == g.nodes[source as int]);
                    assert(g2.nodes[target as int] == g.nodes[target as int]);
                },
            }
        }
        assert(wf(g2));
    }
}

/// `add_node_edge` keeps the graph well formed; in particular a node
/// edge is only committed when it cannot close a cycle.
pub proof fn lemma_add_node_edge_wf(g: GraphModel, sname: Seq<char>, tname: Seq<char>)
    requires
        wf(g),
    ensures
        wf(spec_add_node_edge(g, sname, tname).0),
{
    if node_named(g, sname) && node_named(g, tname) {
        let s = node_id(g, sname);
        let t = node_id(g, tname);
        lemma_node_id_in_range(g, sname);
        lemma_node_id_in_range(g, tname);
        if !has_node_edge(g, s, t) && !slot_connected(g, s, t) && !reaches(g.edges, t, s) {
            let e = Edge::NodeEdge { source: s, target: t };
            let g2 = push_edge(g, e);
            assert forall|k: int| 0 <= k < g2.edges.len() implies edge_wf(g2, #[trigger] g2.edges[k]) by {
                if k < g.edges.len() {
                    assert(edge_wf(g, g.edges[k]));
                    assert(g2.edges[k] == g.edges[k]);
                } else {
                    assert(g2.edges[k] == e);
                }
            }
            assert forall|k: int, l: int|
                0 <= k < l < g2.edges.len() implies g2.edges[k] != g2.edges[l] by {
                if l < g.edges.len() {
                    assert(g.edges[k] != g.edges[l]);
                } else {
                    assert(g2.edges[l] == e);
                    assert(g2.edges[k] == g.edges[k]);
                    if g.edges[k] == e {
                        assert(has_node_edge(g, s, t));
                    }
                }
            }
            assert(bindings_unique(g2.edges)) by {
                assert forall|k: int, l: int|
                    0 <= k < l < g2.edges.len() implies !(#[trigger] g2.edges[k] matches Edge::SlotEdge {
                    target: t1,
                    target_index: i1,
                    ..
                } && #[trigger] g2.edges[l] matches Edge::SlotEdge {
                    target: t2,
                    target_index: i2,
                    ..
                } && t1 == t2 && i1 == i2) by {
                    if l < g.edges.len() {
                        assert(bindings_unique(g.edges));
                        assert(g2.edges[k] == g.edges[k] && g2.edges[l] == g.edges[l]);
                    } else {
                        assert(g2.edges[l] == e);
                    }
                }
            }
            crate::reach::lemma_acyclic_push(g.edges, e);
            assert(wf(g2));
        }
    }
}

/// `add_slot_edge` keeps the graph well formed; in particular the new
/// binding is unique for its target input and cannot close a cycle.
pub proof fn lemma_add_slot_edge_wf(
    g: GraphModel,
    sname: Seq<char>,
    slabel: SlotLabelModel,
    tname: Seq<char>,
    tlabel: SlotLabelModel,
)
    requires
        wf(g),
    ensures
        wf(spec_add_slot_edge(g, sname, slabel, tname, tlabel).0),
{
    if node_named(g, sname) && node_named(g, tname) {
        let s = node_id(g, sname);
        let t = node_id(g, tname);
        lemma_node_id_in_range(g, sname);
        lemma_node_id_in_range(g, tname);
        let so = resolve_slot(g.nodes[s as int].outputs, slabel);
        let ti = resolve_slot(g.nodes[t as int].inputs, tlabel);
        if so is Some && ti is Some {
            let si = so->0;
            let tix = ti->0;
            assert(g.nodes[s as int].outputs.len() <= usize::MAX);
            assert(g.nodes[t as int].inputs.len() <= usize::MAX);
            lemma_resolve_slot_in_range(g.nodes[s as int].outputs, slabel);
            lemma_resolve_slot_in_range(g.nodes[t as int].inputs, tlabel);
            let skind = g.nodes[s as int].outputs[si as int].kind;
            let tkind = g.nodes[t as int].inputs[tix as int].kind;
            if skind == tkind && !input_bound(g, t, tix) && !reaches(g.edges, t, s) {
                let se = Edge::SlotEdge { source: s, source_index: si, target: t, target_index: tix };
                let g1 = push_edge(g, se);
                assert forall|k: int| 0 <= k < g1.edges.len() implies edge_wf(g1, #[trigger] g1.edges[k]) by {
                    if k < g.edges.len() {
                        assert(edge_wf(g, g.edges[k]));
                        assert(g1.edges[k] == g.edges[k]);
                    } else {
                        assert(g1.edges[k] == se);
                    }
                }
                assert forall|k: int, l: int|
                    0 <= k < l < g1.edges.len() implies g1.edges[k] != g1.edges[l] by {
                    if l < g.edges.len() {
                        assert(g.edges[k] != g.edges[l]);
                    } else {
                        assert(g1.edges[l] == se);
                        assert(g1.edges[k] == g.edges[k]);
                        if g.edges[k] == se {
                            assert(input_bound(g, t, tix));
                        }
                    }
                }
                assert(bindings_unique(g1.edges)) by {
                    assert forall|k: int, l: int|
                        0 <= k < l < g1.edges.len() implies !(#[trigger] g1.edges[k] matches Edge::SlotEdge {
                        target: t1,
                        target_index: i1,
                        ..
                    } && #[trigger] g1.edges[l] matches Edge::SlotEdge {
                        target: t2,
                        target_index: i2,
                        ..
                    } && t1 == t2 && i1 == i2) by {
                        if l < g.edges.len() {
                            assert(bindings_unique(g.edges));
                            assert(g1.edges[k] == g.edges[k] && g1.edges[l] == g.edges[l]);
                        } else {
                            assert(g1.edges[l] == se);
                            assert(g1.edges[k] == g.edges[k]);
                            if g.edges[k] matches Edge::SlotEdge { target, target_index, .. }
                                && target == t && target_index == tix {
                                assert(input_bound(g, t, tix));
                            }
                        }
                    }
                }
                crate::reach::lemma_acyclic_push(g.edges, se);
                assert(wf(g1));
                if !has_node_edge(g, s, t) {
                    let ne = Edge::NodeEdge { source: s, target: t };
                    let g2 = push_edge(g1, ne);
                    assert(connects(g1.edges, s, t)) by {
                        assert(g1.edges[g.edges.len() as int] == se);
                    }
                    assert(!reaches(g1.edges, t, s));
                    assert forall|k: int| 0 <= k < g2.edges.len() implies edge_wf(g2, #[trigger] g2.edges[k]) by {
                        if k < g1.edges.len() {
                            assert(edge_wf(g1, g1.edges[k]));
                            assert(g2.edges[k] == g1.edges[k]);
                        } else {
                            assert(g2.edges[k] == ne);
                        }
                    }
                    assert forall|k: int, l: int|
                        0 <= k < l < g2.edges.len() implies g2.edges[k] != g2.edges[l] by {
                        if l < g1.edges.len() {
                            assert(g1.edges[k] != g1.edges[l]);
                        } else {
                            assert(g2.edges[l] == ne);
                            assert(g2.edges[k] == g1.edges[k]);
                            if g1.edges[k] == ne {
                                if k < g.edges.len() {
                                    assert(has_node_edge(g, s, t));
                                } else {
                                    assert(g1.edges[k] == se);
                                }
                            }
                        }
                    }
                    assert(bindings_unique(g2.edges)) by {
                        assert forall|k: int, l: int|
                            0 <= k < l < g2.edges.len() implies !(#[trigger] g2.edges[k] matches Edge::SlotEdge {
                            target: t1,
                            target_index: i1,
                            ..
                        } && #[trigger] g2.edges[l] matches Edge::SlotEdge {
                            target: t2,
                            target_index: i2,
                            ..
                        } && t1 == t2 && i1 == i2) by {
                            if l < g1.edges.len() {
                                assert(bindings_unique(g1.edges));
                                assert(g2.edges[k] == g1.edges[k] && g2.edges[l] == g1.edges[l]);
                            } else {
                                assert(g2.edges[l] == ne);
                            }
                        }
                    }
                    crate::reach::lemma_acyclic_push(g1.edges, ne);
                    assert(wf(g2));
                }
            }
        }
    }
}

} // verus!
