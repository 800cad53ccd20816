//! The parts of `petgraph` that the DOT parser uses, with the contracts Verus relies on.

use petgraph::algo::toposort;
use petgraph::graph::{Graph, NodeIndex};
use petgraph::Directed;

use crate::dot_layout::has_directed_cycle;
use vstd::prelude::*;

verus! {

/// `petgraph::Graph`, opaque to Verus; its contents are named below.
#[verifier::external_type_specification]
#[verifier::external_body]
#[verifier::reject_recursive_types(N)]
#[verifier::reject_recursive_types(E)]
#[verifier::reject_recursive_types(Ty)]
#[verifier::reject_recursive_types(Ix)]
pub struct ExGraph<N, E, Ty, Ix>(Graph<N, E, Ty, Ix>);

/// `petgraph::Directed`, the edge-type marker of a directed graph.
#[verifier::external_type_specification]
#[verifier::external_body]
pub struct ExDirected(Directed);

/// The node weights of a parsed DOT graph, in node-index order, each taken by its view.
pub uninterp spec fn dot_graph_nodes(g: Graph<String, ()>) -> Seq<Seq<char>>;

/// The edges of a parsed DOT graph, in edge-index order, as (source index, target index).
pub uninterp spec fn dot_graph_edges(g: Graph<String, ()>) -> Seq<(int, int)>;

/// `petgraph::Graph::new`: an empty directed graph.
#[verifier::external_body]
pub(crate) fn graph_new() -> (g: Graph<String, ()>)
    ensures
        dot_graph_nodes(g) == Seq::<Seq<char>>::empty(),
        dot_graph_edges(g) == Seq::<(int, int)>::empty(),
{
    Graph::new()
}

/// `petgraph::Graph::add_node`: appends a node and returns its index, which is the old
/// node count. It panics only when the count has reached `u32::MAX`, which `requires` excludes.
#[verifier::external_body]
pub(crate) fn graph_add_node(g: &mut Graph<String, ()>, weight: String) -> (idx: usize)
    requires
        dot_graph_nodes(*old(g)).len() < u32::MAX,
    ensures
        idx == dot_graph_nodes(*old(g)).len(),
        dot_graph_nodes(*final(g)) == dot_graph_nodes(*old(g)).push(weight@),
        dot_graph_edges(*final(g)) == dot_graph_edges(*old(g)),
{
    g.add_node(weight).index()
}

/// `petgraph::Graph::add_edge`: appends the edge `a -> b`. It panics when an endpoint is
/// not a node or the edge count has reached `u32::MAX`; `requires` excludes both.
#[verifier::external_body]
pub(crate) fn graph_add_edge(g: &mut Graph<String, ()>, a: usize, b: usize)
    requires
        a < dot_graph_nodes(*old(g)).len(),
        b < dot_graph_nodes(*old(g)).len(),
        a < u32::MAX,
        b < u32::MAX,
        dot_graph_edges(*old(g)).len() < u32::MAX,
    ensures
        dot_graph_nodes(*final(g)) == dot_graph_nodes(*old(g)),
        dot_graph_edges(*final(g)) == dot_graph_edges(*old(g)).push((a as int, b as int)),
{
    g.add_edge(NodeIndex::new(a), NodeIndex::new(b), ());
}

/// `petgraph::Graph::edge_count`: the number of edges.
#[verifier::external_body]
pub(crate) fn graph_edge_count(g: &Graph<String, ()>) -> (n: usize)
    ensures
        n == dot_graph_edges(*g).len(),
{
    g.edge_count()
}

/// `petgraph::Graph::node_count`: the number of nodes.
#[verifier::external_body]
pub(crate) fn graph_node_count(g: &Graph<String, ()>) -> (n: usize)
    ensures
        n == dot_graph_nodes(*g).len(),
{
    g.node_count()
}

/// `petgraph::algo::toposort` without a workspace, reporting whether it fails: it fails
/// exactly when some path of one or more edges leads from a node back to itself (a self-loop
/// included). Its search is iterative.
#[verifier::external_body]
pub(crate) fn graph_is_cyclic(g: &Graph<String, ()>) -> (b: bool)
    ensures
        b == has_directed_cycle(dot_graph_edges(*g)),
{
    toposort(g, None).is_err()
}

} // verus!
