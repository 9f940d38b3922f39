//! The `petgraph` graph that holds the physical qubits and their couplings,
//! seen through trusted items: the declared outside types, the names for
//! what a graph holds, and one wrapper per `petgraph` function called.
use petgraph::graph::{EdgeIndex, Graph, NodeIndex};
use petgraph::Undirected;
use vstd::prelude::*;

use crate::topology::{EdgeClass, PhysicalQubitId};

verus! {

/// `petgraph::graph::Graph`, carried opaquely.
#[verifier::external_type_specification]
#[verifier::external_body]
#[verifier::reject_recursive_types(N)]
#[verifier::reject_recursive_types(E)]
#[verifier::reject_recursive_types(Ty)]
#[verifier::reject_recursive_types(Ix)]
pub struct ExGraph<N, E, Ty, Ix>(Graph<N, E, Ty, Ix>);

/// `petgraph::graph::NodeIndex`, carried opaquely.
#[verifier::external_type_specification]
#[verifier::external_body]
#[verifier::reject_recursive_types(Ix)]
pub struct ExNodeIndex<Ix>(NodeIndex<Ix>);

/// `petgraph::Undirected`, the edge-type marker of undirected graphs.
#[verifier::external_type_specification]
#[verifier::external_body]
pub struct ExUndirected(Undirected);

/// The node weights of an undirected qubit graph, in node-index order.
pub uninterp spec fn graph_nodes(g: Graph<PhysicalQubitId, EdgeClass, Undirected, u32>) -> Seq<PhysicalQubitId>;

/// The edges of an undirected qubit graph, in edge-index order, each as
/// (index of its first node, index of its second node, weight).
pub uninterp spec fn graph_edges(g: Graph<PhysicalQubitId, EdgeClass, Undirected, u32>) -> Seq<(usize, usize, EdgeClass)>;

/// What `NodeIndex::<u32>::new` returns for an index.
pub uninterp spec fn node_index_new(i: usize) -> NodeIndex<u32>;

/// What `NodeIndex::<u32>::index` returns for a node index: the position
/// of the node it names.
pub uninterp spec fn node_index_value(ix: NodeIndex<u32>) -> usize;

/// `Graph::new_undirected`: a graph without nodes and without edges.
#[verifier::external_body]
pub(crate) fn graph_new() -> (g: Graph<PhysicalQubitId, EdgeClass, Undirected, u32>)
    ensures
        graph_nodes(g) == Seq::<PhysicalQubitId>::empty(),
        graph_edges(g) == Seq::<(usize, usize, EdgeClass)>::empty(),
{
    Graph::new_undirected()
}

/// `Graph::add_node`: appends the node weight and returns the new node's
/// index (the former node count); the edges stay. `petgraph` panics when
/// the new index would be `u32::MAX`, which `requires` leaves out.
#[verifier::external_body]
pub(crate) fn graph_add_node(
    g: &mut Graph<PhysicalQubitId, EdgeClass, Undirected, u32>,
    weight: PhysicalQubitId,
) -> (r: usize)
    requires
        graph_nodes(*old(g)).len() < u32::MAX,
    ensures
        r == graph_nodes(*old(g)).len(),
        graph_nodes(*final(g)) == graph_nodes(*old(g)).push(weight),
        graph_edges(*final(g)) == graph_edges(*old(g)),
{
    g.add_node(weight).index()
}

/// `Graph::add_edge` with the node indices `NodeIndex::new(a)` and
/// `NodeIndex::new(b)`: appends the edge `(a, b, weight)`; the nodes stay.
/// `petgraph` panics on an index out of bounds and when the new edge index
/// would be `u32::MAX`, which `requires` leaves out.
#[verifier::external_body]
pub(crate) fn graph_add_edge(
    g: &mut Graph<PhysicalQubitId, EdgeClass, Undirected, u32>,
    a: usize,
    b: usize,
    weight: EdgeClass,
)
    requires
        a < graph_nodes(*old(g)).len(),
        b < graph_nodes(*old(g)).len(),
        graph_nodes(*old(g)).len() <= u32::MAX,
        graph_edges(*old(g)).len() < u32::MAX,
    ensures
        graph_nodes(*final(g)) == graph_nodes(*old(g)),
        graph_edges(*final(g)) == graph_edges(*old(g)).push((a, b, weight)),
{
    g.add_edge(NodeIndex::new(a), NodeIndex::new(b), weight);
}

/// `Graph::edge_count`: the number of edges.
#[verifier::external_body]
pub(crate) fn graph_edge_count(g: &Graph<PhysicalQubitId, EdgeClass, Undirected, u32>) -> (r: usize)
    ensures
        r == graph_edges(*g).len(),
{
    g.edge_count()
}

/// `Graph::edge_endpoints` of `EdgeIndex::new(i)`: the node indices of
/// edge `i`, or `None` where there is no such edge.
#[verifier::external_body]
pub(crate) fn graph_edge_endpoints(
    g: &Graph<PhysicalQubitId, EdgeClass, Undirected, u32>,
    i: usize,
) -> (r: Option<(usize, usize)>)
    requires
        i <= u32::MAX,
    ensures
        r == (if i < graph_edges(*g).len() {
            Some((graph_edges(*g)[i as int].0, graph_edges(*g)[i as int].1))
        } else {
            None
        }),
{
    match g.edge_endpoints(EdgeIndex::new(i)) {
        Some((a, b)) => Some((a.index(), b.index())),
        None => None,
    }
}

/// Indexing a graph by `EdgeIndex::new(i)`: the weight of edge `i`.
/// `petgraph` panics on an index out of bounds, which `requires` leaves out.
#[verifier::external_body]
pub(crate) fn graph_edge_weight(
    g: &Graph<PhysicalQubitId, EdgeClass, Undirected, u32>,
    i: usize,
) -> (r: &EdgeClass)
    requires
        i < graph_edges(*g).len(),
        i <= u32::MAX,
    ensures
        *r == graph_edges(*g)[i as int].2,
{
    &g[EdgeIndex::new(i)]
}

/// Indexing a graph by `NodeIndex::new(i)`: the weight of node `i`.
/// `petgraph` panics on an index out of bounds, which `requires` leaves out.
#[verifier::external_body]
pub(crate) fn graph_node_weight(
    g: &Graph<PhysicalQubitId, EdgeClass, Undirected, u32>,
    i: usize,
) -> (r: &PhysicalQubitId)
    requires
        i < graph_nodes(*g).len(),
        i <= u32::MAX,
    ensures
        *r == graph_nodes(*g)[i as int],
{
    &g[NodeIndex::new(i)]
}

/// `NodeIndex::<u32>::new`: the node index for `i`. It stores `i as u32`,
/// and `NodeIndex::index` gives that back as a `usize`, so for
/// `i <= u32::MAX` the index of the result is `i` itself.
#[verifier::external_body]
pub(crate) fn node_index(i: usize) -> (r: NodeIndex<u32>)
    ensures
        r == node_index_new(i),
        i <= u32::MAX ==> node_index_value(r) == i,
{
    NodeIndex::new(i)
}

} // verus!
