//! The storage of a clock tree: a `petgraph` stable graph, and what this crate
//! takes for granted about it.
//!
//! Nothing in this file is proved. Each function here makes one call into
//! `petgraph`, and its contract says what that call does to the vertices and
//! edges that the graph holds. The rest of the crate is verified against these
//! contracts.

use crate::model::ascending;
use crate::model::Direction;
use crate::model::TreeModel;
use crate::types::Node;
use petgraph::stable_graph::EdgeIndex;
use petgraph::stable_graph::NodeIndex;
use petgraph::stable_graph::StableGraph;
use petgraph::visit::EdgeRef;
use petgraph::Directed;
use vstd::prelude::*;

verus! {

/// `petgraph::stable_graph::StableGraph`, as a type whose inside is not looked
/// into.
#[verifier::external_type_specification]
#[verifier::external_body]
#[verifier::reject_recursive_types(N)]
#[verifier::reject_recursive_types(E)]
#[verifier::reject_recursive_types(Ty)]
#[verifier::reject_recursive_types(Ix)]
pub struct ExStableGraph<N, E, Ty, Ix>(StableGraph<N, E, Ty, Ix>);

/// `petgraph::Directed`, the marker of a graph whose edges have a direction.
#[verifier::external_type_specification]
#[verifier::external_body]
pub struct ExDirected(Directed);

/// The vertices that a graph holds: each node index that is in use, with the
/// weight stored under it.
pub uninterp spec fn graph_nodes(g: StableGraph<Node, (), Directed, u32>) -> Map<u32, Node>;

/// The edges that a graph holds: each edge index that is in use, with the
/// source and the target of its edge.
pub uninterp spec fn graph_edges(g: StableGraph<Node, (), Directed, u32>) -> Map<u32, (u32, u32)>;

/// Whether `e` is the index of an edge of `edges` whose end on the side `dir`
/// is the vertex `a`.
pub open spec fn edge_touches(edges: Map<u32, (u32, u32)>, e: u32, a: u32, dir: Direction) -> bool {
    edges.contains_key(e) && TreeModel::anchor(edges[e], dir) == a
}

/// The edges of `edges` that do not touch the vertex `a`.
pub open spec fn edges_clear_of(edges: Map<u32, (u32, u32)>, a: u32) -> Map<u32, (u32, u32)> {
    edges.restrict(Set::new(|e: u32| edges[e].0 != a && edges[e].1 != a))
}

/// `StableGraph::new`: the graph it returns holds no vertex and no edge.
#[verifier::external_body]
pub(crate) fn graph_new() -> (g: StableGraph<Node, (), Directed, u32>)
    ensures
        graph_nodes(g).dom() == Set::<u32>::empty(),
        graph_edges(g).dom() == Set::<u32>::empty(),
{
    StableGraph::new()
}

/// `StableGraph::node_count`: the number of vertices held.
#[verifier::external_body]
pub(crate) fn graph_node_count(g: &StableGraph<Node, (), Directed, u32>) -> (n: usize)
    ensures
        n == graph_nodes(*g).dom().len(),
{
    g.node_count()
}

/// `StableGraph::edge_count`: the number of edges held.
#[verifier::external_body]
pub(crate) fn graph_edge_count(g: &StableGraph<Node, (), Directed, u32>) -> (n: usize)
    ensures
        n == graph_edges(*g).dom().len(),
{
    g.edge_count()
}

/// `StableGraph::add_node`: stores `node` under an index that was not in use,
/// and touches nothing else. It panics once every index below `u32::MAX` is in
/// use, which the precondition rules out.
#[verifier::external_body]
pub(crate) fn graph_add_node(g: &mut StableGraph<Node, (), Directed, u32>, node: Node) -> (id: u32)
    requires
        graph_nodes(*old(g)).dom().len() < u32::MAX,
    ensures
        !graph_nodes(*old(g)).contains_key(id),
        graph_nodes(*final(g)) == graph_nodes(*old(g)).insert(id, node),
        graph_edges(*final(g)) == graph_edges(*old(g)),
{
    g.add_node(node).index() as u32
}

/// `StableGraph::remove_node`: where the index `a` is in use, takes the vertex
/// out together with every edge that touches it, and hands back its weight;
/// where it is not, changes nothing and returns `None`. Other indices stay as
/// they are.
#[verifier::external_body]
pub(crate) fn graph_remove_node(g: &mut StableGraph<Node, (), Directed, u32>, a: u32) -> (removed:
    Option<Node>)
    ensures
        graph_nodes(*old(g)).contains_key(a) ==> removed == Some(graph_nodes(*old(g))[a]),
        graph_nodes(*old(g)).contains_key(a) ==> graph_edges(*final(g)) == edges_clear_of(
            graph_edges(*old(g)),
            a,
        ),
        !graph_nodes(*old(g)).contains_key(a) ==> removed is None,
        !graph_nodes(*old(g)).contains_key(a) ==> graph_edges(*final(g)) == graph_edges(*old(g)),
        graph_nodes(*final(g)) == graph_nodes(*old(g)).remove(a),
{
    g.remove_node(NodeIndex::new(a as usize))
}

/// `StableGraph::node_weight`: the weight stored under the index `a`, if it is
/// in use.
#[verifier::external_body]
pub(crate) fn graph_node_weight(g: &StableGraph<Node, (), Directed, u32>, a: u32) -> (w: Option<
    &Node,
>)
    ensures
        graph_nodes(*g).contains_key(a) ==> w == Some(&graph_nodes(*g)[a]),
        !graph_nodes(*g).contains_key(a) ==> w is None,
{
    g.node_weight(NodeIndex::new(a as usize))
}

/// `StableGraph::node_indices`: the indices in use, each once, from the lowest
/// to the highest.
#[verifier::external_body]
pub(crate) fn graph_node_indices(g: &StableGraph<Node, (), Directed, u32>) -> (ids: Vec<u32>)
    ensures
        ascending(ids@),
        forall|v: u32| ids@.contains(v) <==> graph_nodes(*g).contains_key(v),
{
    g.node_indices().map(|i| i.index() as u32).collect()
}

/// `StableGraph::add_edge`: stores an edge from `a` to `b` under an index that
/// was not in use, and touches nothing else. It panics where `a` or `b` is not
/// in the graph, or once every index below `u32::MAX` is in use; the
/// precondition rules both out.
#[verifier::external_body]
pub(crate) fn graph_add_edge(g: &mut StableGraph<Node, (), Directed, u32>, a: u32, b: u32) -> (id:
    u32)
    requires
        graph_nodes(*old(g)).contains_key(a),
        graph_nodes(*old(g)).contains_key(b),
        graph_edges(*old(g)).dom().len() < u32::MAX,
    ensures
        !graph_edges(*old(g)).contains_key(id),
        graph_edges(*final(g)) == graph_edges(*old(g)).insert(id, (a, b)),
        graph_nodes(*final(g)) == graph_nodes(*old(g)),
{
    g.add_edge(NodeIndex::new(a as usize), NodeIndex::new(b as usize), ()).index() as u32
}

/// `StableGraph::find_edge`: the index of an edge from `a` to `b`, or `None`
/// where the graph holds no such edge.
#[verifier::external_body]
pub(crate) fn graph_find_edge(g: &StableGraph<Node, (), Directed, u32>, a: u32, b: u32) -> (found:
    Option<u32>)
    ensures
        found is Some ==> graph_edges(*g).contains_key(found->Some_0) && graph_edges(
            *g,
        )[found->Some_0] == (a, b),
        found is None ==> forall|e: u32|
            graph_edges(*g).contains_key(e) ==> graph_edges(*g)[e] != (a, b),
{
    g.find_edge(NodeIndex::new(a as usize), NodeIndex::new(b as usize)).map(|e| e.index() as u32)
}

/// `StableGraph::remove_edge`: takes the edge under the index `e` out, if that
/// index is in use, and says whether it was. Nothing else changes.
#[verifier::external_body]
pub(crate) fn graph_remove_edge(g: &mut StableGraph<Node, (), Directed, u32>, e: u32) -> (removed:
    Option<()>)
    ensures
        removed is Some <==> graph_edges(*old(g)).contains_key(e),
        graph_edges(*final(g)) == graph_edges(*old(g)).remove(e),
        graph_nodes(*final(g)) == graph_nodes(*old(g)),
{
    g.remove_edge(EdgeIndex::new(e as usize))
}

/// `StableGraph::edges_directed`: the indices of the edges that leave the
/// vertex `a` (for `Outgoing`) or arrive at it (for `Incoming`), each once, in
/// no stated order.
#[verifier::external_body]
pub(crate) fn graph_edges_directed(
    g: &StableGraph<Node, (), Directed, u32>,
    a: u32,
    dir: Direction,
) -> (ids: Vec<u32>)
    requires
        graph_nodes(*g).contains_key(a),
    ensures
        ids@.no_duplicates(),
        forall|e: u32| ids@.contains(e) <==> edge_touches(graph_edges(*g), e, a, dir),
{
    let side = match dir {
        Direction::Outgoing => petgraph::Direction::Outgoing,
        Direction::Incoming => petgraph::Direction::Incoming,
    };
    g.edges_directed(NodeIndex::new(a as usize), side).map(|e| e.id().index() as u32).collect()
}

} // verus!
