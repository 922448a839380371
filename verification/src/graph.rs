//! The graph store: the executable render graph and its mutating
//! operations.  Every operation validates its arguments before it
//! touches the store, promises the exact outcome written in `model`,
//! and keeps the graph well formed — in particular acyclic.

use vstd::prelude::*;
use crate::edge::Edge;
use crate::edge::edge_source;
use crate::edge::edge_target;
use crate::error::GraphError;
use crate::model::GraphModel;
use crate::model::NodeModel;
use crate::model::distinct_slot_names;
use crate::model::edges_into;
use crate::model::edges_out_of;
use crate::model::has_node_edge;
use crate::model::input_bound;
use crate::model::lemma_add_node_edge_wf;
use crate::model::lemma_add_node_wf;
use crate::model::lemma_add_slot_edge_wf;
use crate::model::lemma_node_id_is;
use crate::model::lemma_slot_id_is;
use crate::model::node_id;
use crate::model::node_named;
use crate::model::resolve_slot;
use crate::model::slot_connected;
use crate::model::slot_named;
use crate::model::spec_add_node;
use crate::model::spec_add_node_edge;
use crate::model::spec_add_slot_edge;
use crate::reach::connects;
use crate::reach::count_true;
use crate::reach::is_path;
use crate::reach::lemma_closed_covers;
use crate::reach::lemma_count_true_all_clear;
use crate::reach::lemma_count_true_le;
use crate::reach::lemma_count_true_update;
use crate::reach::lemma_reaches_refl;
use crate::reach::lemma_reaches_step;
use crate::reach::reaches;
use crate::slot::SlotDescriptor;
use crate::slot::SlotLabel;
use crate::slot::SlotLabelModel;
use crate::slot::SlotModel;

verus! {

/// The slot lists a node registers with: what it consumes and what it
/// produces.  The behavior behind the ports is the caller's business;
/// the graph only manages the dependency structure.
pub struct NodePorts {
    pub inputs: Vec<SlotDescriptor>,
    pub outputs: Vec<SlotDescriptor>,
}

/// One registered node: its unique name and its two slot lists.
pub struct NodeEntry {
    pub name: String,
    pub inputs: Vec<SlotDescriptor>,
    pub outputs: Vec<SlotDescriptor>,
}

/// The mathematical image of a slot list.
pub open spec fn slots_model(s: Seq<SlotDescriptor>) -> Seq<SlotModel> {
    s.map_values(|d: SlotDescriptor| d@)
}

impl View for NodeEntry {
    type V = NodeModel;

    open spec fn view(&self) -> NodeModel {
        NodeModel {
            name: self.name@,
            inputs: slots_model(self.inputs@),
            outputs: slots_model(self.outputs@),
        }
    }
}

/// The mathematical image of a node list.
pub open spec fn nodes_model(s: Seq<NodeEntry>) -> Seq<NodeModel> {
    s.map_values(|n: NodeEntry| n@)
}

/// Appending an entry appends its image.
proof fn lemma_nodes_model_push(s: Seq<NodeEntry>, e: NodeEntry)
    ensures
        nodes_model(s.push(e)) == nodes_model(s).push(e@),
{
    assert(nodes_model(s.push(e)) =~= nodes_model(s).push(e@));
}

/// The graph store.  All mutation goes through `add_node`,
/// `add_node_edge` and `add_slot_edge`, each of which validates before
/// it commits, so a graph is well formed at all times.
pub struct RenderGraph {
    nodes: Vec<NodeEntry>,
    edges: Vec<Edge>,
}

impl View for RenderGraph {
    type V = GraphModel;

    closed spec fn view(&self) -> GraphModel {
        GraphModel { nodes: nodes_model(self.nodes@), edges: self.edges@ }
    }
}

/// Compares a stored name with a query.
fn str_eq_string(a: &String, b: &str) -> (r: bool)
    ensures
        r == (a@ == b@),
{
    let owned: String = b.to_owned();
    a.eq(&owned)
}

/// The nodes reachable from `start`: entry `j` of the result says
/// whether node `j` can be reached.  A fixpoint search: every round
/// marks the nodes one edge beyond the marked ones, and the rounds
/// stop when nothing new was marked.
fn reachable_from(edges: &Vec<Edge>, n: usize, start: usize) -> (r: Vec<bool>)
    requires
        start < n,
        forall|k: int|
            0 <= k < edges@.len() ==> edge_source(#[trigger] edges@[k]) < n && edge_target(
                edges@[k],
            ) < n,
    ensures
        r@.len() == n,
        forall|j: int| 0 <= j < n ==> (r@[j] <==> reaches(edges@, start, j as usize)),
{
    let mut flags: Vec<bool> = Vec::new();
    let mut i: usize = 0;
    while i < n
        invariant
            i <= n,
            flags@.len() == i,
            forall|j: int| 0 <= j < i ==> !flags@[j],
        decreases n - i,
    {
        flags.push(false);
        i += 1;
    }
    proof {
        lemma_count_true_all_clear(flags@);
        lemma_count_true_update(flags@, start as int);
        lemma_reaches_refl(edges@, start);
    }
    flags[start] = true;
    let mut rounds: usize = 0;
    loop
        invariant
            flags@.len() == n,
            start < n,
            forall|k: int|
                0 <= k < edges@.len() ==> edge_source(#[trigger] edges@[k]) < n && edge_target(
                    edges@[k],
                ) < n,
            flags@[start as int],
            forall|j: int| 0 <= j < n ==> (flags@[j] ==> reaches(edges@, start, j as usize)),
            rounds + 1 <= count_true(flags@),
            count_true(flags@) <= n,
        ensures
            flags@.len() == n,
            forall|j: int| 0 <= j < n ==> (flags@[j] ==> reaches(edges@, start, j as usize)),
            forall|a: usize, b: usize|
                a < n && flags@[a as int] && #[trigger] connects(edges@, a, b) ==> b < n
                    && flags@[b as int],
        decreases n - rounds,
    {
        let ghost pass_start = flags@;
        let mut changed = false;
        let mut k: usize = 0;
        let elen = edges.len();
        while k < elen
            invariant
                elen == edges@.len(),
                k <= elen,
                flags@.len() == n,
                start < n,
                forall|kk: int|
                    0 <= kk < edges@.len() ==> edge_source(#[trigger] edges@[kk]) < n
                        && edge_target(edges@[kk]) < n,
                flags@[start as int],
                forall|j: int| 0 <= j < n ==> (flags@[j] ==> reaches(edges@, start, j as usize)),
                rounds + 1 <= count_true(flags@),
                count_true(flags@) <= n,
                changed ==> rounds + 2 <= count_true(flags@),
                !changed ==> flags@ == pass_start,
                !changed ==> forall|j: int|
                    0 <= j < k ==> (flags@[edge_source(#[trigger] edges@[j]) as int]
                        ==> flags@[edge_target(edges@[j]) as int]),
            decreases elen - k,
        {
            let e = edges[k];
            let es = e.source();
            let et = e.target();
            if flags[es] && !flags[et] {
                proof {
                    lemma_count_true_update(flags@, et as int);
                    assert(connects(edges@, es, et)) by {
                        assert(edge_source(edges@[k as int]) == es && edge_target(
                            edges@[k as int],
                        ) == et);
                    }
                    lemma_reaches_step(edges@, start, es, et);
                }
                flags[et] = true;
                changed = true;
                proof {
                    lemma_count_true_le(flags@);
                }
            }
            k += 1;
        }
        if !changed {
            proof {
                assert forall|a: usize, b: usize|
                    a < n && flags@[a as int] && #[trigger] connects(edges@, a, b) implies b < n
                    && flags@[b as int] by {
                    let j = choose|j: int|
                        0 <= j < edges@.len() && edge_source(edges@[j]) == a && edge_target(
                            edges@[j],
                        ) == b;
                    assert(flags@[edge_source(edges@[j]) as int] ==> flags@[edge_target(
                        edges@[j],
                    ) as int]);
                }
            }
            break;
        }
        rounds += 1;
    }
    proof {
        assert forall|j: int| 0 <= j < n implies (flags@[j] <==> reaches(
            edges@,
            start,
            j as usize,
        )) by {
            if reaches(edges@, start, j as usize) {
                let p = choose|p: Seq<usize>|
                    is_path(edges@, p) && p.first() == start && p.last() == (j as usize);
                lemma_closed_covers(edges@, flags@, p);
            }
        }
    }
    flags
}

/// Resolves a slot reference against a slot list.
#[verifier::loop_isolation(false)]
fn find_slot(slots: &Vec<SlotDescriptor>, label: &SlotLabel) -> (r: Option<usize>)
    requires
        distinct_slot_names(slots_model(slots@)),
    ensures
        r == resolve_slot(slots_model(slots@), label@),
{
    match label {
        SlotLabel::Index(i) => {
            if *i < slots.len() {
                Some(*i)
            } else {
                None
            }
        },
        SlotLabel::Name(n) => {
            let len = slots.len();
            let mut i: usize = 0;
            while i < len
                invariant
                    i <= len,
                    len == slots@.len(),
                    distinct_slot_names(slots_model(slots@)),
                    forall|j: int| 0 <= j < i ==> slots_model(slots@)[j].name != n@,
                decreases len - i,
            {
                if str_eq_string(&slots[i].name, n.as_str()) {
                    proof {
                        lemma_slot_id_is(slots_model(slots@), n@, i as int);
                    }
                    return Some(i);
                }
                i += 1;
            }
            proof {
                if slot_named(slots_model(slots@), n@) {
                    let j = choose|j: int|
                        0 <= j < slots_model(slots@).len() && slots_model(slots@)[j].name == n@;
                    assert(slots_model(slots@)[j].name != n@);
                }
            }
            None
        },
    }
}

impl RenderGraph {
    /// The structural invariant of a graph; every operation of the
    /// store establishes or preserves it.
    pub open spec fn wf(self) -> bool {
        crate::model::wf(self@)
    }

    /// An empty graph: no nodes, no edges.
    pub fn new() -> (r: RenderGraph)
        ensures
            r@.nodes.len() == 0,
            r@.edges.len() == 0,
            r.wf(),
    {
        let r = RenderGraph { nodes: Vec::new(), edges: Vec::new() };
        r
    }

    /// How many nodes are registered.
    pub fn node_count(&self) -> (r: usize)
        ensures
            r == self@.nodes.len(),
    {
        self.nodes.len()
    }

    /// How many edges are registered, slot edges and node edges alike.
    pub fn edge_count(&self) -> (r: usize)
        ensures
            r == self@.edges.len(),
    {
        self.edges.len()
    }

    /// The position of the node carrying `name`, if one is registered.
    fn find_node(&self, name: &str) -> (r: Option<usize>)
        ensures
            match r {
                Some(i) => i < self@.nodes.len() && self@.nodes[i as int].name == name@,
                None => !node_named(self@, name@),
            },
    {
        let n = self.nodes.len();
        let mut i: usize = 0;
        while i < n
            invariant
                i <= n,
                n == self@.nodes.len(),
                forall|j: int| 0 <= j < i ==> self@.nodes[j].name != name@,
            decreases n - i,
        {
            if str_eq_string(&self.nodes[i].name, name) {
                return Some(i);
            }
            i += 1;
        }
        proof {
            if node_named(self@, name@) {
                let j = choose|j: int|
                    0 <= j < self@.nodes.len() && self@.nodes[j].name == name@;
                assert(self@.nodes[j].name != name@);
            }
        }
        None
    }

    /// Whether the identical node edge is registered.
    #[verifier::loop_isolation(false)]
    fn has_node_edge_exec(&self, s: usize, t: usize) -> (r: bool)
        ensures
            r == has_node_edge(self@, s, t),
    {
        let e = Edge::NodeEdge { source: s, target: t };
        let len = self.edges.len();
        let mut k: usize = 0;
        while k < len
            invariant
                len == self.edges@.len(),
                k <= len,
                forall|j: int| 0 <= j < k ==> self.edges@[j] != e,
            decreases len - k,
        {
            if self.edges[k] == e {
                proof {
                    assert(self@.edges[k as int] == e);
                    assert(has_node_edge(self@, s, t));
                }
                return true;
            }
            k += 1;
        }
        proof {
            if has_node_edge(self@, s, t) {
                let j = choose|j: int| 0 <= j < self@.edges.len() && self@.edges[j] == e;
                assert(self.edges@[j] != e);
            }
        }
        false
    }

    /// Whether some slot edge runs from node `s` to node `t`.
    #[verifier::loop_isolation(false)]
    fn slot_connected_exec(&self, s: usize, t: usize) -> (r: bool)
        ensures
            r == slot_connected(self@, s, t),
    {
        let len = self.edges.len();
        let mut k: usize = 0;
        while k < len
            invariant
                len == self.edges@.len(),
                k <= len,
                forall|j: int|
                    0 <= j < k ==> !(#[trigger] self.edges@[j] matches Edge::SlotEdge {
                        source,
                        target,
                        ..
                    } && source == s && target == t),
            decreases len - k,
        {
            let hit = match self.edges[k] {
                Edge::SlotEdge { source, target, .. } => source == s && target == t,
                _ => false,
            };
            if hit {
                return true;
            }
            k += 1;
        }
        false
    }

    /// Whether input slot `ti` of node `t` is already fed.
    #[verifier::loop_isolation(false)]
    fn input_bound_exec(&self, t: usize, ti: usize) -> (r: bool)
        ensures
            r == input_bound(self@, t, ti),
    {
        let len = self.edges.len();
        let mut k: usize = 0;
        while k < len
            invariant
                len == self.edges@.len(),
                k <= len,
                forall|j: int|
                    0 <= j < k ==> !(#[trigger] self.edges@[j] matches Edge::SlotEdge {
                        target,
                        target_index,
                        ..
                    } && target == t && target_index == ti),
            decreases len - k,
        {
            let hit = match self.edges[k] {
                Edge::SlotEdge { target, target_index, .. } => target == t && target_index == ti,
                _ => false,
            };
            if hit {
                return true;
            }
            k += 1;
        }
        false
    }

    /// Every edge points at registered nodes.
    proof fn lemma_edges_in_range(&self)
        requires
            self.wf(),
        ensures
            forall|k: int|
                0 <= k < self.edges@.len() ==> edge_source(#[trigger] self.edges@[k])
                    < self.nodes@.len() && edge_target(self.edges@[k]) < self.nodes@.len(),
    {
        assert forall|k: int|
            0 <= k < self.edges@.len() implies edge_source(#[trigger] self.edges@[k])
            < self.nodes@.len() && edge_target(self.edges@[k]) < self.nodes@.len() by {
            assert(crate::model::edge_wf(self@, self@.edges[k]));
        }
    }

    /// Registers a new node under `name` with the given ports.  The
    /// name must be free; a taken name is refused and nothing changes.
    pub fn add_node(&mut self, name: &str, ports: NodePorts) -> (r: Result<(), GraphError>)
        requires
            old(self).wf(),
            old(self)@.nodes.len() < usize::MAX,
            distinct_slot_names(slots_model(ports.inputs@)),
            distinct_slot_names(slots_model(ports.outputs@)),
        ensures
            final(self).wf(),
            final(self)@ == spec_add_node(
                old(self)@,
                name@,
                slots_model(ports.inputs@),
                slots_model(ports.outputs@),
            ).0,
            r == spec_add_node(
                old(self)@,
                name@,
                slots_model(ports.inputs@),
                slots_model(ports.outputs@),
            ).1,
    {
        match self.find_node(name) {
            Some(i) => {
                proof {
                    assert(self@.nodes[i as int].name == name@);
                    assert(node_named(self@, name@));
                }
                Err(GraphError::DuplicateNodeName)
            },
            None => {
                let ilen = ports.inputs.len();
                let olen = ports.outputs.len();
                let entry = NodeEntry {
                    name: name.to_owned(),
                    inputs: ports.inputs,
                    outputs: ports.outputs,
                };
                proof {
                    lemma_add_node_wf(self@, name@, entry@.inputs, entry@.outputs);
                    lemma_nodes_model_push(self.nodes@, entry);
                }
                self.nodes.push(entry);
                Ok(())
            },
        }
    }

    /// Registers a pure ordering edge from `source` to `target`.  Both
    /// nodes must exist, the identical edge must be new, and the edge
    /// must not close a cycle; a slot edge between the same nodes
    /// already orders them, and then the call succeeds as a no-op.
    pub fn add_node_edge(&mut self, source: &str, target: &str) -> (r: Result<(), GraphError>)
        requires
            old(self).wf(),
        ensures
            final(self).wf(),
            final(self)@ == spec_add_node_edge(old(self)@, source@, target@).0,
            r == spec_add_node_edge(old(self)@, source@, target@).1,
    {
        let sopt = self.find_node(source);
        let topt = self.find_node(target);
        match (sopt, topt) {
            (Some(s), Some(t)) => {
                proof {
                    lemma_node_id_is(self@, source@, s as int);
                    lemma_node_id_is(self@, target@, t as int);
                }
                if self.slot_connected_exec(s, t) {
                    return Ok(());
                }
                if self.has_node_edge_exec(s, t) {
                    return Err(GraphError::EdgeAlreadyExists);
                }
                proof {
                    self.lemma_edges_in_range();
                }
                let flags = reachable_from(&self.edges, self.nodes.len(), t);
                if flags[s] {
                    return Err(GraphError::WouldCreateCycle);
                }
                proof {
                    lemma_add_node_edge_wf(self@, source@, target@);
                }
                self.edges.push(Edge::NodeEdge { source: s, target: t });
                Ok(())
            },
            _ => Err(GraphError::NodeNotFound),
        }
    }

    /// Registers a data binding: output slot `source_slot` of `source`
    /// feeds input slot `target_slot` of `target`.  The nodes must
    /// exist, the slots must resolve and carry the same kind, the
    /// input must still be free, and the edge must not close a cycle.
    /// On success the node edge the binding induces is recorded too,
    /// unless it is already registered.
    pub fn add_slot_edge(
        &mut self,
        source: &str,
        source_slot: SlotLabel,
        target: &str,
        target_slot: SlotLabel,
    ) -> (r: Result<(), GraphError>)
        requires
            old(self).wf(),
        ensures
            final(self).wf(),
            final(self)@ == spec_add_slot_edge(
                old(self)@,
                source@,
                source_slot@,
                target@,
                target_slot@,
            ).0,
            r == spec_add_slot_edge(old(self)@, source@, source_slot@, target@, target_slot@).1,
    {
        let sopt = self.find_node(source);
        let topt = self.find_node(target);
        match (sopt, topt) {
            (Some(s), Some(t)) => {
                proof {
                    lemma_node_id_is(self@, source@, s as int);
                    lemma_node_id_is(self@, target@, t as int);
                }
                let so = find_slot(&self.nodes[s].outputs, &source_slot);
                let ti = find_slot(&self.nodes[t].inputs, &target_slot);
                match (so, ti) {
                    (Some(si), Some(tix)) => {
                        proof {
                            crate::model::lemma_resolve_slot_in_range(
                                self@.nodes[s as int].outputs,
                                source_slot@,
                            );
                            crate::model::lemma_resolve_slot_in_range(
                                self@.nodes[t as int].inputs,
                                target_slot@,
                            );
                        }
                        let skind = self.nodes[s].outputs[si].kind;
                        let tkind = self.nodes[t].inputs[tix].kind;
                        if !(skind == tkind) {
                            return Err(GraphError::SlotKindMismatch);
                        }
                        if self.input_bound_exec(t, tix) {
                            return Err(GraphError::SlotAlreadyBound);
                        }
                        proof {
                            self.lemma_edges_in_range();
                        }
                        let flags = reachable_from(&self.edges, self.nodes.len(), t);
                        if flags[s] {
                            return Err(GraphError::WouldCreateCycle);
                        }
                        proof {
                            lemma_add_slot_edge_wf(
                                self@,
                                source@,
                                source_slot@,
                                target@,
                                target_slot@,
                            );
                        }
                        let had = self.has_node_edge_exec(s, t);
                        self.edges.push(
                            Edge::SlotEdge {
                                source: s,
                                source_index: si,
                                target: t,
                                target_index: tix,
                            },
                        );
                        if !had {
                            self.edges.push(Edge::NodeEdge { source: s, target: t });
                        }
                        Ok(())
                    },
                    _ => Err(GraphError::SlotNotFound),
                }
            },
            _ => Err(GraphError::NodeNotFound),
        }
    }

    /// Looks a node up by name.
    pub fn get_node(&self, name: &str) -> (r: Option<&NodeEntry>)
        requires
            self.wf(),
        ensures
            match r {
                Some(entry) => node_named(self@, name@) && entry@ == self@.nodes[node_id(
                    self@,
                    name@,
                ) as int],
                None => !node_named(self@, name@),
            },
    {
        match self.find_node(name) {
            Some(i) => {
                proof {
                    lemma_node_id_is(self@, name@, i as int);
                }
                Some(&self.nodes[i])
            },
            None => None,
        }
    }

    /// The position the named node was registered at.  Edges refer to
    /// nodes by this position.
    pub fn node_index(&self, name: &str) -> (r: Option<usize>)
        requires
            self.wf(),
        ensures
            r is Some <==> node_named(self@, name@),
            r matches Some(i) ==> i == node_id(self@, name@) && i < self@.nodes.len(),
    {
        match self.find_node(name) {
            Some(i) => {
                proof {
                    lemma_node_id_is(self@, name@, i as int);
                }
                Some(i)
            },
            None => None,
        }
    }

    /// The edges that point at the named node, in registration order.
    #[verifier::loop_isolation(false)]
    pub fn input_edges(&self, name: &str) -> (r: Result<Vec<Edge>, GraphError>)
        requires
            self.wf(),
        ensures
            match r {
                Ok(v) => node_named(self@, name@) && v@ == edges_into(
                    self@.edges,
                    node_id(self@, name@),
                ),
                Err(e) => e == GraphError::NodeNotFound && !node_named(self@, name@),
            },
    {
        let t = match self.find_node(name) {
            Some(i) => i,
            None => {
                return Err(GraphError::NodeNotFound);
            },
        };
        proof {
            lemma_node_id_is(self@, name@, t as int);
        }
        let mut out: Vec<Edge> = Vec::new();
        let elen = self.edges.len();
        let mut k: usize = 0;
        while k < elen
            invariant
                elen == self.edges@.len(),
                k <= elen,
                out@ == edges_into(self.edges@.take(k as int), t),
            decreases elen - k,
        {
            proof {
                assert(self.edges@.take(k as int + 1).drop_last() =~= self.edges@.take(k as int));
                assert(self.edges@.take(k as int + 1).last() == self.edges@[k as int]);
            }
            let e = self.edges[k];
            if e.target() == t {
                out.push(e);
            }
            k += 1;
        }
        proof {
            assert(self.edges@.take(elen as int) =~= self.edges@);
        }
        Ok(out)
    }

    /// The edges that leave the named node, in registration order.
    #[verifier::loop_isolation(false)]
    pub fn output_edges(&self, name: &str) -> (r: Result<Vec<Edge>, GraphError>)
        requires
            self.wf(),
        ensures
            match r {
                Ok(v) => node_named(self@, name@) && v@ == edges_out_of(
                    self@.edges,
                    node_id(self@, name@),
                ),
                Err(e) => e == GraphError::NodeNotFound && !node_named(self@, name@),
            },
    {
        let s = match self.find_node(name) {
            Some(i) => i,
            None => {
                return Err(GraphError::NodeNotFound);
            },
        };
        proof {
            lemma_node_id_is(self@, name@, s as int);
        }
        let mut out: Vec<Edge> = Vec::new();
        let elen = self.edges.len();
        let mut k: usize = 0;
        while k < elen
            invariant
                elen == self.edges@.len(),
                k <= elen,
                out@ == edges_out_of(self.edges@.take(k as int), s),
            decreases elen - k,
        {
            proof {
                assert(self.edges@.take(k as int + 1).drop_last() =~= self.edges@.take(k as int));
                assert(self.edges@.take(k as int + 1).last() == self.edges@[k as int]);
            }
            let e = self.edges[k];
            if e.source() == s {
                out.push(e);
            }
            k += 1;
        }
        proof {
            assert(self.edges@.take(elen as int) =~= self.edges@);
        }
        Ok(out)
    }
}

impl Default for RenderGraph {
    /// An empty graph.
    fn default() -> (r: RenderGraph)
        ensures
            r@.nodes.len() == 0,
            r@.edges.len() == 0,
            r.wf(),
    {
        RenderGraph::new()
    }
}

} // verus!
