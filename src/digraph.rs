//! The directed graph of node indices, held in a `petgraph::Graph`.
//!
//! Nodes carry no weight: node `i` of the graph is entry `i` of the node table
//! that the caller keeps beside it. The graph is seen through two names: how many
//! nodes it has and the list of its edges, in the order they were added.
use vstd::prelude::*;

verus! {

/// The petgraph graph with unit weights and `usize` indices.
#[verifier::external_type_specification]
#[verifier::external_body]
#[verifier::reject_recursive_types(N)]
#[verifier::reject_recursive_types(E)]
#[verifier::reject_recursive_types(Ty)]
#[verifier::reject_recursive_types(Ix)]
pub struct ExGraph<N, E, Ty, Ix>(petgraph::Graph<N, E, Ty, Ix>);

/// petgraph's marker for directed edges.
#[verifier::external_type_specification]
#[verifier::external_body]
pub struct ExDirected(petgraph::Directed);

/// The number of nodes that a graph holds.
pub uninterp spec fn graph_order(g: petgraph::Graph<(), (), petgraph::Directed, usize>) -> nat;

/// The edges of a graph, as (source, target) pairs in the order they were added.
pub uninterp spec fn graph_edges(g: petgraph::Graph<(), (), petgraph::Directed, usize>) -> Seq<(usize, usize)>;

/// A closed walk of at least one edge.
pub open spec fn is_cycle(edges: Seq<(usize, usize)>, p: Seq<usize>) -> bool {
    &&& p.len() >= 2
    &&& p[0] == p[p.len() - 1]
    &&& forall|k: int| 0 <= k < p.len() - 1 ==> #[trigger] edges.contains((p[k], p[k + 1]))
}

/// Whether the edges contain a directed cycle (a self loop counts).
pub open spec fn cyclic(edges: Seq<(usize, usize)>) -> bool {
    exists|p: Seq<usize>| is_cycle(edges, p)
}

/// Whether `order` lists each of the nodes `0..n` exactly once.
pub open spec fn lists_all_nodes(order: Seq<usize>, n: nat) -> bool {
    &&& order.len() == n
    &&& order.no_duplicates()
    &&& forall|k: int| 0 <= k < order.len() ==> #[trigger] order[k] < n
}

/// Whether each edge's source stands before its target in `order`.
pub open spec fn sources_first(order: Seq<usize>, edges: Seq<(usize, usize)>) -> bool {
    forall|i: int, j: int|
        0 <= i < order.len() && 0 <= j < order.len() && #[trigger] edges.contains(
            (order[i], order[j]),
        ) ==> i < j
}

pub type IndexGraph = petgraph::Graph<(), (), petgraph::Directed, usize>;

/// Relies on `Graph::default` (`with_capacity(0, 0)`): a graph with no nodes
/// and no edges.
#[verifier::external_body]
pub fn graph_new() -> (g: IndexGraph)
    ensures
        graph_order(g) == 0,
        graph_edges(g) == Seq::<(usize, usize)>::empty(),
{
    petgraph::Graph::default()
}

/// Relies on `Graph::add_node`: the new node's index is the old node count, and
/// edges are untouched. With `usize` indices it does not panic.
#[verifier::external_body]
pub fn graph_add_node(g: &mut IndexGraph) -> (r: usize)
    ensures
        r == graph_order(*old(g)),
        graph_order(*final(g)) == graph_order(*old(g)) + 1,
        graph_edges(*final(g)) == graph_edges(*old(g)),
{
    g.add_node(()).index()
}

/// Relies on `Graph::add_edge`: the edge is appended, nodes are untouched. It
/// panics when an end is not a node, which `requires` rules out.
#[verifier::external_body]
pub fn graph_add_edge(g: &mut IndexGraph, a: usize, b: usize)
    requires
        a < graph_order(*old(g)),
        b < graph_order(*old(g)),
    ensures
        graph_order(*final(g)) == graph_order(*old(g)),
        graph_edges(*final(g)) == graph_edges(*old(g)).push((a, b)),
{
    g.add_edge(petgraph::graph::NodeIndex::new(a), petgraph::graph::NodeIndex::new(b), ());
}

/// Relies on `petgraph::algo::is_cyclic_directed`: true exactly when the graph
/// holds a directed cycle.
#[verifier::external_body]
pub fn graph_is_cyclic(g: &IndexGraph) -> (r: bool)
    ensures
        r == cyclic(graph_edges(*g)),
{
    petgraph::algo::is_cyclic_directed(g)
}

/// Relies on `petgraph::algo::toposort`: on an acyclic graph, every node once,
/// each before its successors; on a cyclic one, an error.
#[verifier::external_body]
pub fn graph_toposort(g: &IndexGraph) -> (r: Result<Vec<usize>, ()>)
    ensures
        r is Err <==> cyclic(graph_edges(*g)),
        r matches Ok(order) ==> lists_all_nodes(order@, graph_order(*g)) && sources_first(
            order@,
            graph_edges(*g),
        ),
{
    match petgraph::algo::toposort(g, None) {
        Ok(order) => Ok(order.into_iter().map(|i| i.index()).collect()),
        Err(_) => Err(()),
    }
}

} // verus!
