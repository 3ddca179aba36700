//! The compiled graph: petgraph's `Graph` holds the nodes and edges, and the
//! functions here are the only places that touch it.

use petgraph::graph::{Graph, NodeIndex};
use petgraph::Directed;
use vstd::prelude::*;

use crate::script::{Choice, Talker};

verus! {

/// What kind of line a node is.
#[derive(Debug, Clone, Copy, PartialEq, Eq)]
pub enum NodeKind {
    /// A line that is spoken and then followed by at most one line.
    Talk,
    /// A line whose way on is one of the choices it offers the player.
    Choice,
}

/// A compiled line: its text, the talker resolved from the talker list, the
/// choices of the authored line, and its kind, fixed when it is compiled.
#[derive(Debug)]
pub struct DialogueNode {
    pub text: String,
    pub talker: Option<Talker>,
    pub choices: Option<Vec<Choice>>,
    pub kind: NodeKind,
}

#[verifier::external_type_specification]
#[verifier::external_body]
pub struct ExDirected(Directed);

#[verifier::external_type_specification]
#[verifier::external_body]
#[verifier::reject_recursive_types(N)]
#[verifier::reject_recursive_types(E)]
#[verifier::reject_recursive_types(Ty)]
#[verifier::reject_recursive_types(Ix)]
pub struct ExGraph<N, E, Ty, Ix>(Graph<N, E, Ty, Ix>);

/// Directed graph of compiled lines; edges carry no payload.
pub type DialogueGraph = Graph<DialogueNode, (), Directed, usize>;

/// The node weights of a graph, by node index.
pub uninterp spec fn graph_nodes(g: DialogueGraph) -> Seq<DialogueNode>;

/// The edges of a graph as (source, target) node indices, in order of addition.
pub uninterp spec fn graph_edges(g: DialogueGraph) -> Seq<(int, int)>;

/// Relies on petgraph's `Graph::with_capacity`: a graph with no nodes and no edges.
#[verifier::external_body]
pub(crate) fn empty_graph() -> (g: DialogueGraph)
    ensures
        graph_nodes(g) == Seq::<DialogueNode>::empty(),
        graph_edges(g) == Seq::<(int, int)>::empty(),
{
    Graph::with_capacity(0, 0)
}

/// Relies on petgraph's `Graph::add_node`: the weight is appended and its
/// index is the former node count; edges are untouched. With `usize`
/// indices there is no capacity panic.
#[verifier::external_body]
pub(crate) fn add_node(g: &mut DialogueGraph, n: DialogueNode) -> (r: usize)
    ensures
        graph_nodes(*final(g)) == graph_nodes(*old(g)).push(n),
        graph_edges(*final(g)) == graph_edges(*old(g)),
        r == graph_nodes(*old(g)).len(),
{
    g.add_node(n).index()
}

/// Relies on petgraph's `Graph::add_edge`: the edge is appended; nodes are
/// untouched. It panics on an index out of bounds, which `requires` rules out.
#[verifier::external_body]
pub(crate) fn add_edge(g: &mut DialogueGraph, a: usize, b: usize)
    requires
        a < graph_nodes(*old(g)).len(),
        b < graph_nodes(*old(g)).len(),
    ensures
        graph_edges(*final(g)) == graph_edges(*old(g)).push((a as int, b as int)),
        graph_nodes(*final(g)) == graph_nodes(*old(g)),
{
    g.add_edge(NodeIndex::new(a), NodeIndex::new(b), ());
}

/// Relies on petgraph's `Graph::node_count`: the number of nodes.
#[verifier::external_body]
pub(crate) fn node_count(g: &DialogueGraph) -> (r: usize)
    ensures
        r == graph_nodes(*g).len(),
{
    g.node_count()
}

/// Relies on petgraph's `Graph::edge_count`: the number of edges.
#[verifier::external_body]
pub(crate) fn edge_count(g: &DialogueGraph) -> (r: usize)
    ensures
        r == graph_edges(*g).len(),
{
    g.edge_count()
}

/// Relies on petgraph's `Index<NodeIndex>` for `Graph`: the weight of node
/// `i`, which panics out of bounds.
#[verifier::external_body]
pub(crate) fn node_at(g: &DialogueGraph, i: usize) -> (r: &DialogueNode)
    requires
        i < graph_nodes(*g).len(),
    ensures
        *r == graph_nodes(*g)[i as int],
{
    &g[NodeIndex::new(i)]
}

/// Relies on petgraph's `Graph::neighbors` on a directed graph: it yields the
/// target of every outgoing edge of `i`, so its first item is `None` exactly
/// when `i` has no outgoing edge, and otherwise the target of one of them.
#[verifier::external_body]
pub(crate) fn first_successor(g: &DialogueGraph, i: usize) -> (r: Option<usize>)
    ensures
        r is None <==> forall|e: int|
            0 <= e < graph_edges(*g).len() ==> #[trigger] graph_edges(*g)[e].0 != i,
        r matches Some(j) ==> exists|e: int|
            0 <= e < graph_edges(*g).len() && #[trigger] graph_edges(*g)[e] == (i as int, j as int),
{
    g.neighbors(NodeIndex::new(i)).next().map(|n| n.index())
}

} // verus!
