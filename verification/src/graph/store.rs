//! The graph that `petgraph` keeps.
//!
//! A `petgraph` graph is opaque to the verifier. [`graph_nodes`] names the texts
//! of its nodes and [`graph_edges`] its edges, both in the order in which they
//! were added; a node is known by its position. The functions of `petgraph`
//! that the library calls are given their contracts here; none of these
//! contracts is proved.
use petgraph::graph::{Graph, NodeIndex};
use petgraph::visit::EdgeRef;
use petgraph::{Directed, Direction};
use vstd::prelude::*;

use super::cycles::strong_components_of;

verus! {

/// The type `petgraph::graph::Graph`.
#[verifier::external_type_specification]
#[verifier::external_body]
#[verifier::reject_recursive_types(N)]
#[verifier::reject_recursive_types(E)]
#[verifier::reject_recursive_types(Ty)]
#[verifier::reject_recursive_types(Ix)]
pub struct ExGraph<N, E, Ty, Ix>(petgraph::graph::Graph<N, E, Ty, Ix>);

/// The type `petgraph::Directed`.
#[verifier::external_type_specification]
#[verifier::external_body]
pub struct ExDirected(petgraph::Directed);

/// The texts of the nodes, in the order in which they were added.
pub uninterp spec fn graph_nodes(g: Graph<String, (), Directed, u32>) -> Seq<Seq<char>>;

/// The edges, as positions of nodes, in the order in which they were added.
pub uninterp spec fn graph_edges(g: Graph<String, (), Directed, u32>) -> Seq<(int, int)>;

/// The components that `petgraph::algo::tarjan_scc` lists for a graph with
/// that many nodes and those edges.
pub uninterp spec fn listed_components(nodes: int, edges: Seq<(int, int)>) -> Seq<Seq<int>>;

/// Positions as integers.
pub open spec fn positions(v: Seq<usize>) -> Seq<int> {
    Seq::new(v.len(), |i: int| v[i] as int)
}

/// Lists of positions as lists of integers.
pub open spec fn position_lists(v: Seq<Vec<usize>>) -> Seq<Seq<int>> {
    Seq::new(v.len(), |i: int| positions(v[i]@))
}

/// Pairs of positions as pairs of integers.
pub open spec fn position_pairs(v: Seq<(usize, usize)>) -> Seq<(int, int)> {
    Seq::new(v.len(), |i: int| (v[i].0 as int, v[i].1 as int))
}

/// The targets of the edges that leave a node, the newest edge first.
pub open spec fn targets(edges: Seq<(int, int)>, node: int) -> Seq<int>
    decreases edges.len(),
{
    if edges.len() == 0 {
        Seq::empty()
    } else {
        let older = targets(edges.drop_last(), node);
        if edges.last().0 == node {
            seq![edges.last().1] + older
        } else {
            older
        }
    }
}

/// The sources of the edges that enter a node, the newest edge first.
pub open spec fn sources(edges: Seq<(int, int)>, node: int) -> Seq<int>
    decreases edges.len(),
{
    if edges.len() == 0 {
        Seq::empty()
    } else {
        let older = sources(edges.drop_last(), node);
        if edges.last().1 == node {
            seq![edges.last().0] + older
        } else {
            older
        }
    }
}

/// `petgraph::graph::Graph::new`: the new graph has no node and no edge.
#[verifier::external_body]
pub(crate) fn new_graph() -> (g: Graph<String, (), Directed, u32>)
    ensures
        graph_nodes(g).len() == 0,
        graph_edges(g).len() == 0,
{
    Graph::new()
}

/// `petgraph::graph::Graph::add_node`: the node becomes the last one, and its
/// position is returned. A graph with as many nodes as its index type can
/// tell apart takes no further one.
#[verifier::external_body]
pub(crate) fn add_node(g: &mut Graph<String, (), Directed, u32>, text: String) -> (i: usize)
    requires
        graph_nodes(*old(g)).len() < u32::MAX,
    ensures
        graph_nodes(*final(g)) == graph_nodes(*old(g)).push(text@),
        graph_edges(*final(g)) == graph_edges(*old(g)),
        i == graph_nodes(*old(g)).len(),
{
    g.add_node(text).index()
}

/// `petgraph::graph::Graph::add_edge`: the edge becomes the last one, also
/// where there is one between the same nodes. A graph with as many edges as
/// its index type can tell apart takes no further one.
#[verifier::external_body]
pub(crate) fn add_edge(g: &mut Graph<String, (), Directed, u32>, from: usize, to: usize)
    requires
        from < graph_nodes(*old(g)).len(),
        to < graph_nodes(*old(g)).len(),
        graph_edges(*old(g)).len() < u32::MAX,
    ensures
        graph_nodes(*final(g)) == graph_nodes(*old(g)),
        graph_edges(*final(g)) == graph_edges(*old(g)).push((from as int, to as int)),
{
    g.add_edge(NodeIndex::new(from), NodeIndex::new(to), ());
}

/// `petgraph::graph::Graph::node_count`.
#[verifier::external_body]
pub(crate) fn node_count(g: &Graph<String, (), Directed, u32>) -> (n: usize)
    ensures
        n == graph_nodes(*g).len(),
{
    g.node_count()
}

/// `petgraph::graph::Graph::edge_count`.
#[verifier::external_body]
pub(crate) fn edge_count(g: &Graph<String, (), Directed, u32>) -> (n: usize)
    ensures
        n == graph_edges(*g).len(),
{
    g.edge_count()
}

/// Indexing of a `petgraph::graph::Graph`: the text of a node.
#[verifier::external_body]
pub(crate) fn node_text(g: &Graph<String, (), Directed, u32>, i: usize) -> (s: &String)
    requires
        i < graph_nodes(*g).len(),
    ensures
        s@ == graph_nodes(*g)[i as int],
{
    &g[NodeIndex::new(i)]
}

/// `petgraph::graph::Graph::edge_references`: all edges in the order in which
/// they were added. An edge lies between nodes of the graph.
#[verifier::external_body]
pub(crate) fn edge_list(g: &Graph<String, (), Directed, u32>) -> (out: Vec<(usize, usize)>)
    ensures
        position_pairs(out@) == graph_edges(*g),
        forall|i: int|
            0 <= i < out@.len() ==> (#[trigger] out@[i]).0 < graph_nodes(*g).len() && out@[i].1
                < graph_nodes(*g).len(),
{
    g.edge_references().map(|e| (e.source().index(), e.target().index())).collect()
}

/// `petgraph::graph::Graph::neighbors`: the targets of the edges that leave a
/// node, in reverse order of their addition. They are nodes of the graph.
#[verifier::external_body]
pub(crate) fn out_neighbors(g: &Graph<String, (), Directed, u32>, i: usize) -> (out: Vec<usize>)
    requires
        i < graph_nodes(*g).len(),
    ensures
        positions(out@) == targets(graph_edges(*g), i as int),
        forall|k: int| 0 <= k < out@.len() ==> #[trigger] out@[k] < graph_nodes(*g).len(),
{
    g.neighbors(NodeIndex::new(i)).map(|n| n.index()).collect()
}

/// `petgraph::graph::Graph::neighbors_directed` with the direction `Incoming`:
/// the sources of the edges that enter a node, in reverse order of their
/// addition. They are nodes of the graph.
#[verifier::external_body]
pub(crate) fn in_neighbors(g: &Graph<String, (), Directed, u32>, i: usize) -> (out: Vec<usize>)
    requires
        i < graph_nodes(*g).len(),
    ensures
        positions(out@) == sources(graph_edges(*g), i as int),
        forall|k: int| 0 <= k < out@.len() ==> #[trigger] out@[k] < graph_nodes(*g).len(),
{
    g.neighbors_directed(NodeIndex::new(i), Direction::Incoming).map(|n| n.index()).collect()
}

/// `petgraph::graph::Graph::contains_edge`: whether an edge leads from one node
/// to the other.
#[verifier::external_body]
pub(crate) fn contains_edge(
    g: &Graph<String, (), Directed, u32>,
    from: usize,
    to: usize,
) -> (r: bool)
    requires
        from < graph_nodes(*g).len(),
        to < graph_nodes(*g).len(),
    ensures
        r == graph_edges(*g).contains((from as int, to as int)),
{
    g.contains_edge(NodeIndex::new(from), NodeIndex::new(to))
}

/// `petgraph::algo::tarjan_scc`: the strongly connected components of the
/// graph, in reverse topological order. Which components come out, in which
/// order and with their nodes in which order, depends on the number of nodes
/// and on the edges alone. The function calls itself as deep as the graph has
/// unvisited nodes in a row; how deep it may go is up to the stack.
#[verifier::external_body]
pub(crate) fn tarjan(g: &Graph<String, (), Directed, u32>) -> (out: Vec<Vec<usize>>)
    ensures
        position_lists(out@) == listed_components(
            graph_nodes(*g).len() as int,
            graph_edges(*g),
        ),
        strong_components_of(
            position_lists(out@),
            graph_nodes(*g).len() as int,
            graph_edges(*g),
        ),
{
    petgraph::algo::tarjan_scc(g).into_iter().map(
        |c| c.into_iter().map(|n: NodeIndex<u32>| n.index()).collect(),
    ).collect()
}

} // verus!
