//! Module and inter-module link topology.
use vstd::prelude::*;

use petgraph::graph::{NodeIndex, UnGraph};
use std::collections::HashMap;

use crate::graph_store::{
    graph_add_edge, graph_add_node, graph_edge_count, graph_edge_endpoints, graph_edge_weight,
    graph_edges, graph_new, graph_node_weight, graph_nodes, node_index, node_index_new,
    node_index_value,
};
use crate::telegate::LinkKind;

verus! {

/// Identifies a module (a chiplet, a trapped-ion trap segment, etc.).
#[derive(Debug, Clone, Copy, PartialEq, Eq, Structural, Hash, PartialOrd, Ord)]
pub struct ModuleId(pub u32);

/// A physical qubit, tagged with the module it lives in.
#[derive(Debug, Clone, Copy, PartialEq, Eq, Structural, Hash)]
pub struct PhysicalQubitId {
    pub module: ModuleId,
    pub local_index: u32,
}

/// Discriminates local (intra-module) couplings from inter-module links.
#[derive(Debug, Clone, Copy, PartialEq, Eq, Structural)]
pub enum EdgeClass {
    /// Ordinary intra-module coupling; no telegate involved.
    Local,
    /// A physical coupler connecting two modules.
    InterModule(LinkKind),
}

broadcast use vstd::std_specs::hash::group_hash_axioms;

/// The qubits of a graph after registering `q`: unchanged where `q` is
/// already among them, else with `q` appended.
pub open spec fn with_qubit(qubits: Seq<PhysicalQubitId>, q: PhysicalQubitId) -> Seq<PhysicalQubitId> {
    if qubits.contains(q) {
        qubits
    } else {
        qubits.push(q)
    }
}

/// Edges given by node indices, read as edges between the qubits at those
/// indices.
pub open spec fn edges_by_qubit(
    nodes: Seq<PhysicalQubitId>,
    edges: Seq<(usize, usize, EdgeClass)>,
) -> Seq<(PhysicalQubitId, PhysicalQubitId, EdgeClass)> {
    Seq::new(edges.len(), |i: int| (nodes[edges[i].0 as int], nodes[edges[i].1 as int], edges[i].2))
}

/// Whether an edge is an inter-module coupler with an end in `module`.
pub open spec fn is_link_of(e: (PhysicalQubitId, PhysicalQubitId, EdgeClass), module: ModuleId) -> bool {
    &&& e.2 is InterModule
    &&& (e.0.module == module || e.1.module == module)
}

/// The inter-module couplers among `edges` that touch `module`, as qubit
/// pairs, in the order of `edges`.
pub open spec fn module_links(
    edges: Seq<(PhysicalQubitId, PhysicalQubitId, EdgeClass)>,
    module: ModuleId,
) -> Seq<(PhysicalQubitId, PhysicalQubitId)>
    decreases edges.len(),
{
    if edges.len() == 0 {
        Seq::empty()
    } else {
        let before = module_links(edges.drop_last(), module);
        let e = edges.last();
        if is_link_of(e, module) {
            before.push((e.0, e.1))
        } else {
            before
        }
    }
}

/// The key under which a qubit's node index is kept: its module in the
/// high 32 bits, its local index in the low 32 bits.
pub open spec fn spec_qubit_key(q: PhysicalQubitId) -> u64 {
    (q.module.0 as int * 0x1_0000_0000 + q.local_index as int) as u64
}

/// What a module graph holds: its qubits in registration order, and its
/// couplings in insertion order.
pub struct ModuleGraphView {
    pub qubits: Seq<PhysicalQubitId>,
    pub edges: Seq<(PhysicalQubitId, PhysicalQubitId, EdgeClass)>,
}

/// The multi-module system as one undirected graph whose nodes are
/// physical qubits and whose edges carry an [`EdgeClass`].
pub struct ModuleGraph {
    graph: UnGraph<PhysicalQubitId, EdgeClass>,
    index_of: HashMap<u64, usize>,
}

impl View for ModuleGraph {
    type V = ModuleGraphView;

    closed spec fn view(&self) -> ModuleGraphView {
        ModuleGraphView {
            qubits: graph_nodes(self.graph),
            edges: edges_by_qubit(graph_nodes(self.graph), graph_edges(self.graph)),
        }
    }
}

fn qubit_key(q: PhysicalQubitId) -> (r: u64)
    ensures
        r == spec_qubit_key(q),
{
    (q.module.0 as u64) * 0x1_0000_0000 + (q.local_index as u64)
}

proof fn lemma_key_injective(a: PhysicalQubitId, b: PhysicalQubitId)
    requires
        spec_qubit_key(a) == spec_qubit_key(b),
    ensures
        a == b,
{
    assert(a.module.0 == b.module.0 && a.local_index == b.local_index) by (nonlinear_arith)
        requires
            a.module.0 as int * 0x1_0000_0000 + a.local_index as int == b.module.0 as int
                * 0x1_0000_0000 + b.local_index as int,
            a.local_index < 0x1_0000_0000,
            b.local_index < 0x1_0000_0000,
    ;
}

impl ModuleGraph {
    /// Internal consistency: the node-index map agrees with the graph's
    /// nodes, every edge joins existing nodes, every inter-module coupler
    /// joins two different modules, and the indices fit `u32`.
    pub closed spec fn wf(&self) -> bool {
        let nodes = graph_nodes(self.graph);
        let edges = graph_edges(self.graph);
        &&& nodes.len() <= u32::MAX
        &&& edges.len() <= u32::MAX
        &&& forall|i: int|
            0 <= i < edges.len() ==> #[trigger] edges[i].0 < nodes.len() && edges[i].1 < nodes.len()
        &&& forall|i: int|
            0 <= i < edges.len() && (#[trigger] edges[i]).2 is InterModule ==> nodes[edges[i].0 as int].module
                != nodes[edges[i].1 as int].module
        &&& forall|i: int|
            0 <= i < nodes.len() ==> self.index_of@.contains_key(spec_qubit_key(#[trigger] nodes[i]))
                && self.index_of@[spec_qubit_key(nodes[i])] == i
        &&& forall|k: u64|
            #[trigger] self.index_of@.contains_key(k) ==> self.index_of@[k] < nodes.len()
                && spec_qubit_key(nodes[self.index_of@[k] as int]) == k
    }

    /// Law: the qubits of a graph are pairwise distinct, every coupling
    /// joins two registered qubits, and every inter-module coupler joins
    /// two different modules.
    pub proof fn lemma_graph_invariants(&self)
        requires
            self.wf(),
        ensures
            self@.qubits.no_duplicates(),
            self@.qubits.len() <= u32::MAX,
            self@.edges.len() <= u32::MAX,
            forall|i: int|
                0 <= i < self@.edges.len() ==> self@.qubits.contains(#[trigger] self@.edges[i].0)
                    && self@.qubits.contains(self@.edges[i].1),
            forall|i: int|
                0 <= i < self@.edges.len() && (#[trigger] self@.edges[i]).2 is InterModule
                    ==> self@.edges[i].0.module != self@.edges[i].1.module,
    {
        let nodes = graph_nodes(self.graph);
        let edges = graph_edges(self.graph);
        assert forall|i: int, j: int|
            0 <= i < nodes.len() && 0 <= j < nodes.len() && i != j implies nodes[i] != nodes[j] by {
            if nodes[i] == nodes[j] {
                assert(self.index_of@[spec_qubit_key(nodes[i])] == i);
                assert(self.index_of@[spec_qubit_key(nodes[j])] == j);
            }
        }
        assert forall|i: int| 0 <= i < self@.edges.len() implies self@.qubits.contains(
            #[trigger] self@.edges[i].0,
        ) && self@.qubits.contains(self@.edges[i].1) by {
            assert(edges[i].0 < nodes.len());
            assert(nodes[edges[i].0 as int] == self@.edges[i].0);
            assert(nodes[edges[i].1 as int] == self@.edges[i].1);
        }
        assert forall|i: int|
            0 <= i < self@.edges.len() && (#[trigger] self@.edges[i]).2 is InterModule
                implies self@.edges[i].0.module != self@.edges[i].1.module by {
            assert(edges[i].2 is InterModule);
        }
    }

    /// An empty graph: no qubits, no couplings.
    pub fn new() -> (g: Self)
        ensures
            g.wf(),
            g@.qubits == Seq::<PhysicalQubitId>::empty(),
            g@.edges == Seq::<(PhysicalQubitId, PhysicalQubitId, EdgeClass)>::empty(),
    {
        let g = ModuleGraph { graph: graph_new(), index_of: HashMap::new() };
        assert(g@.edges =~= Seq::<(PhysicalQubitId, PhysicalQubitId, EdgeClass)>::empty());
        g
    }

    /// Registers `qubit` unless it is already there, and returns the
    /// position of `qubit` among the qubits.
    fn qubit_slot(&mut self, qubit: PhysicalQubitId) -> (r: usize)
        requires
            old(self).wf(),
            old(self)@.qubits.contains(qubit) || old(self)@.qubits.len() < u32::MAX,
        ensures
            final(self).wf(),
            final(self)@.qubits == with_qubit(old(self)@.qubits, qubit),
            final(self)@.edges == old(self)@.edges,
            r < final(self)@.qubits.len(),
            final(self)@.qubits[r as int] == qubit,
            r == final(self)@.qubits.index_of(qubit),
    {
        proof {
            self.lemma_graph_invariants();
        }
        let key = qubit_key(qubit);
        let found = match self.index_of.get(&key) {
            Some(i) => Some(*i),
            None => None,
        };
        match found {
            Some(i) => {
                proof {
                    let nodes = graph_nodes(self.graph);
                    lemma_key_injective(nodes[i as int], qubit);
                    assert(self@.qubits.contains(qubit));
                    let j = self@.qubits.index_of(qubit);
                    assert(self@.qubits[j] == qubit);
                }
                i
            },
            None => {
                proof {
                    let nodes = graph_nodes(self.graph);
                    if self@.qubits.contains(qubit) {
                        let j = choose|j: int| 0 <= j < nodes.len() && nodes[j] == qubit;
                        assert(self.index_of@.contains_key(spec_qubit_key(nodes[j])));
                    }
                }
                let ghost old_nodes = graph_nodes(self.graph);
                let ghost old_edges = graph_edges(self.graph);
                let ghost old_map = self.index_of@;
                let i = graph_add_node(&mut self.graph, qubit);
                self.index_of.insert(key, i);
                proof {
                    let nodes = graph_nodes(self.graph);
                    assert(nodes == old_nodes.push(qubit));
                    assert forall|k: u64| #[trigger] self.index_of@.contains_key(k) implies self.index_of@[k]
                        < nodes.len() && spec_qubit_key(nodes[self.index_of@[k] as int]) == k by {
                        if k != key {
                            assert(old_map.contains_key(k));
                        }
                    }
                    assert forall|j: int| 0 <= j < nodes.len() implies self.index_of@.contains_key(
                        spec_qubit_key(#[trigger] nodes[j]),
                    ) && self.index_of@[spec_qubit_key(nodes[j])] == j by {
                        if j < old_nodes.len() {
                            assert(old_nodes[j] == nodes[j]);
                            if spec_qubit_key(nodes[j]) == key {
                                lemma_key_injective(nodes[j], qubit);
                                assert(old_nodes.contains(qubit));
                            }
                        }
                    }
                    assert(self@.edges =~= edges_by_qubit(old_nodes, old_edges));
                    self.lemma_graph_invariants();
                    let j = self@.qubits.index_of(qubit);
                    assert(self@.qubits[i as int] == qubit);
                    assert(self@.qubits[j] == qubit);
                }
                i
            },
        }
    }

    /// Registers `qubit` as a node unless it is already one, and returns its
    /// node index, whose `index()` is the qubit's position among the nodes;
    /// registering a qubit twice adds nothing the second time.
    pub fn add_qubit(&mut self, qubit: PhysicalQubitId) -> (r: NodeIndex<u32>)
        requires
            old(self).wf(),
            old(self)@.qubits.contains(qubit) || old(self)@.qubits.len() < u32::MAX,
        ensures
            final(self).wf(),
            final(self)@.qubits == with_qubit(old(self)@.qubits, qubit),
            final(self)@.edges == old(self)@.edges,
            final(self)@.qubits.contains(qubit),
            r == node_index_new(final(self)@.qubits.index_of(qubit) as usize),
            node_index_value(r) == final(self)@.qubits.index_of(qubit),
            node_index_value(r) < final(self)@.qubits.len(),
            final(self)@.qubits[node_index_value(r) as int] == qubit,
            forall|i: int|
                0 <= i < final(self)@.qubits.len() && #[trigger] final(self)@.qubits[i] == qubit
                    ==> i == node_index_value(r) && r == node_index_new(i as usize),
            old(self)@.qubits.contains(qubit) ==> r == node_index_new(
                old(self)@.qubits.index_of(qubit) as usize,
            ),
            !old(self)@.qubits.contains(qubit) ==> r == node_index_new(
                old(self)@.qubits.len() as usize,
            ),
            !old(self)@.qubits.contains(qubit) ==> node_index_value(r) == old(self)@.qubits.len(),
    {
        let i = self.qubit_slot(qubit);
        proof {
            self.lemma_graph_invariants();
        }
        node_index(i)
    }

    /// Appends the coupling `(a, b, class)` between two registered qubits.
    fn add_edge_between(&mut self, a: PhysicalQubitId, b: PhysicalQubitId, class: EdgeClass)
        requires
            old(self).wf(),
            class is InterModule ==> a.module != b.module,
            with_qubit(with_qubit(old(self)@.qubits, a), b).len() <= u32::MAX,
            old(self)@.edges.len() < u32::MAX,
        ensures
            final(self).wf(),
            final(self)@.qubits == with_qubit(with_qubit(old(self)@.qubits, a), b),
            final(self)@.edges == old(self)@.edges.push((a, b, class)),
    {
        let ia = self.qubit_slot(a);
        let ib = self.qubit_slot(b);
        proof {
            self.lemma_graph_invariants();
        }
        let ghost nodes = graph_nodes(self.graph);
        let ghost old_edges = graph_edges(self.graph);
        let ghost old_view = self@.edges;
        graph_add_edge(&mut self.graph, ia, ib, class);
        proof {
            let edges = graph_edges(self.graph);
            assert(edges == old_edges.push((ia, ib, class)));
            assert(nodes[ia as int] == a);
            assert(self@.edges =~= old_view.push((a, b, class)));
        }
    }

    /// Registers an ordinary intra-module coupling between `a` and `b`,
    /// registering either qubit first where it is new.
    pub fn add_local_edge(&mut self, a: PhysicalQubitId, b: PhysicalQubitId)
        requires
            old(self).wf(),
            with_qubit(with_qubit(old(self)@.qubits, a), b).len() <= u32::MAX,
            old(self)@.edges.len() < u32::MAX,
        ensures
            final(self).wf(),
            final(self)@.qubits == with_qubit(with_qubit(old(self)@.qubits, a), b),
            final(self)@.edges == old(self)@.edges.push((a, b, EdgeClass::Local)),
    {
        self.add_edge_between(a, b, EdgeClass::Local);
    }

    /// Registers a physical inter-module coupler of the given kind between
    /// `a` and `b`, which lie in different modules; either qubit is
    /// registered first where it is new.
    pub fn add_inter_module_link(&mut self, a: PhysicalQubitId, b: PhysicalQubitId, kind: LinkKind)
        requires
            old(self).wf(),
            a.module != b.module,
            with_qubit(with_qubit(old(self)@.qubits, a), b).len() <= u32::MAX,
            old(self)@.edges.len() < u32::MAX,
        ensures
            final(self).wf(),
            final(self)@.qubits == with_qubit(with_qubit(old(self)@.qubits, a), b),
            final(self)@.edges == old(self)@.edges.push((a, b, EdgeClass::InterModule(kind))),
    {
        self.add_edge_between(a, b, EdgeClass::InterModule(kind));
    }

    /// All inter-module couplers touching `module`, as qubit pairs in
    /// insertion order.
    pub fn links_of(&self, module: ModuleId) -> (r: Vec<(PhysicalQubitId, PhysicalQubitId)>)
        requires
            self.wf(),
        ensures
            r@ == module_links(self@.edges, module),
    {
        let ghost edges = self@.edges;
        let count = graph_edge_count(&self.graph);
        let mut out: Vec<(PhysicalQubitId, PhysicalQubitId)> = Vec::new();
        let mut i: usize = 0;
        while i < count
            invariant
                self.wf(),
                edges == self@.edges,
                count == edges.len(),
                i <= count,
                out@ == module_links(edges.take(i as int), module),
            decreases count - i,
        {
            proof {
                assert(edges.take(i + 1).drop_last() =~= edges.take(i as int));
                assert(edges.take(i + 1).last() == edges[i as int]);
            }
            let ends = graph_edge_endpoints(&self.graph, i);
            match ends {
                Some((ia, ib)) => {
                    let class = graph_edge_weight(&self.graph, i);
                    let a = *graph_node_weight(&self.graph, ia);
                    let b = *graph_node_weight(&self.graph, ib);
                    match class {
                        EdgeClass::InterModule(_) => {
                            if a.module == module || b.module == module {
                                out.push((a, b));
                            }
                        },
                        EdgeClass::Local => {},
                    }
                },
                None => {},
            }
            i = i + 1;
        }
        proof {
            assert(edges.take(count as int) =~= edges);
        }
        out
    }

    /// The underlying `petgraph` graph: its nodes are the qubits and its
    /// edges the couplings.
    pub fn inner(&self) -> (r: &UnGraph<PhysicalQubitId, EdgeClass>)
        ensures
            graph_nodes(*r) == self@.qubits,
            edges_by_qubit(graph_nodes(*r), graph_edges(*r)) == self@.edges,
    {
        &self.graph
    }
}

impl Default for ModuleGraph {
    /// An empty graph, as [`ModuleGraph::new`].
    fn default() -> (g: Self)
        ensures
            g.wf(),
            g@.qubits == Seq::<PhysicalQubitId>::empty(),
            g@.edges == Seq::<(PhysicalQubitId, PhysicalQubitId, EdgeClass)>::empty(),
    {
        Self::new()
    }
}

/// Law: registering a qubit a second time changes nothing.
pub proof fn lemma_with_qubit_idempotent(qubits: Seq<PhysicalQubitId>, q: PhysicalQubitId)
    ensures
        with_qubit(qubits, q).contains(q),
        with_qubit(with_qubit(qubits, q), q) == with_qubit(qubits, q),
{
    if !qubits.contains(q) {
        assert(qubits.push(q)[qubits.len() as int] == q);
    }
}

/// Law: registering a qubit keeps every earlier qubit at its position, so
/// node indices handed out earlier keep naming the same qubits.
pub proof fn lemma_with_qubit_keeps_positions(qubits: Seq<PhysicalQubitId>, q: PhysicalQubitId)
    ensures
        with_qubit(qubits, q).len() >= qubits.len(),
        forall|i: int| 0 <= i < qubits.len() ==> #[trigger] with_qubit(qubits, q)[i] == qubits[i],
{
}

/// Law: a newly added inter-module coupler is listed last among the links
/// of each module it touches, and the links of every other module stay.
pub proof fn lemma_new_link_listed(
    edges: Seq<(PhysicalQubitId, PhysicalQubitId, EdgeClass)>,
    a: PhysicalQubitId,
    b: PhysicalQubitId,
    kind: LinkKind,
    module: ModuleId,
)
    ensures
        module_links(edges.push((a, b, EdgeClass::InterModule(kind))), module) == (if a.module
            == module || b.module == module {
            module_links(edges, module).push((a, b))
        } else {
            module_links(edges, module)
        }),
{
    assert(edges.push((a, b, EdgeClass::InterModule(kind))).drop_last() =~= edges);
}

/// Law: an intra-module coupling is never listed among a module's links.
pub proof fn lemma_local_edge_not_listed(
    edges: Seq<(PhysicalQubitId, PhysicalQubitId, EdgeClass)>,
    a: PhysicalQubitId,
    b: PhysicalQubitId,
    module: ModuleId,
)
    ensures
        module_links(edges.push((a, b, EdgeClass::Local)), module) == module_links(edges, module),
{
    assert(edges.push((a, b, EdgeClass::Local)).drop_last() =~= edges);
}

spec fn listed_from(
    edges: Seq<(PhysicalQubitId, PhysicalQubitId, EdgeClass)>,
    module: ModuleId,
    p: (PhysicalQubitId, PhysicalQubitId),
) -> bool {
    exists|j: int| 0 <= j < edges.len() && is_link_of(#[trigger] edges[j], module) && p == (edges[j].0, edges[j].1)
}

proof fn lemma_module_links_come_from_edges(
    edges: Seq<(PhysicalQubitId, PhysicalQubitId, EdgeClass)>,
    module: ModuleId,
)
    ensures
        module_links(edges, module).len() <= edges.len(),
        forall|i: int|
            0 <= i < module_links(edges, module).len() ==> listed_from(
                edges,
                module,
                #[trigger] module_links(edges, module)[i],
            ),
    decreases edges.len(),
{
    if edges.len() > 0 {
        let prefix = edges.drop_last();
        lemma_module_links_come_from_edges(prefix, module);
        let ml = module_links(edges, module);
        let pm = module_links(prefix, module);
        assert forall|i: int| 0 <= i < ml.len() implies listed_from(edges, module, #[trigger] ml[i]) by {
            if i < pm.len() {
                assert(listed_from(prefix, module, pm[i]));
                let j = choose|j: int|
                    0 <= j < prefix.len() && is_link_of(#[trigger] prefix[j], module) && pm[i] == (
                        prefix[j].0,
                        prefix[j].1,
                    );
                assert(edges[j] == prefix[j]);
                assert(ml[i] == pm[i]);
            } else {
                let j = edges.len() - 1;
                assert(edges[j] == edges.last());
                assert(is_link_of(edges[j], module));
                assert(ml[i] == (edges[j].0, edges[j].1));
            }
        }
    }
}

/// Law: every pair that `links_of(module)` lists is an inter-module coupler
/// between two registered qubits of different modules, one of which lies in
/// `module`.
pub proof fn lemma_links_of_sound(g: &ModuleGraph, module: ModuleId)
    requires
        g.wf(),
    ensures
        forall|i: int|
            0 <= i < module_links(g@.edges, module).len() ==> {
                let p = #[trigger] module_links(g@.edges, module)[i];
                &&& p.0.module == module || p.1.module == module
                &&& p.0.module != p.1.module
                &&& g@.qubits.contains(p.0)
                &&& g@.qubits.contains(p.1)
            },
{
    g.lemma_graph_invariants();
    lemma_module_links_come_from_edges(g@.edges, module);
    let ml = module_links(g@.edges, module);
    assert forall|i: int| 0 <= i < ml.len() implies {
        let p = #[trigger] ml[i];
        &&& p.0.module == module || p.1.module == module
        &&& p.0.module != p.1.module
        &&& g@.qubits.contains(p.0)
        &&& g@.qubits.contains(p.1)
    } by {
        assert(listed_from(g@.edges, module, ml[i]));
        let j = choose|j: int|
            0 <= j < g@.edges.len() && is_link_of(#[trigger] g@.edges[j], module) && ml[i] == (
                g@.edges[j].0,
                g@.edges[j].1,
            );
        assert(g@.edges[j].2 is InterModule);
    }
}

} // verus!
