//! The clock tree: a graph of blocks that only lets itself be edited in ways
//! that keep every block within its port limits.

use crate::model::ascending;
use crate::model::lemma_prefix_step;
use crate::model::ConnectError;
use crate::model::Direction;
use crate::model::TreeModel;
use crate::model::UnknownVertex;
use crate::model::VertexId;
use crate::stable_graph::edge_touches;
use crate::stable_graph::edges_clear_of;
use crate::stable_graph::graph_add_edge;
use crate::stable_graph::graph_add_node;
use crate::stable_graph::graph_edge_count;
use crate::stable_graph::graph_edges;
use crate::stable_graph::graph_edges_directed;
use crate::stable_graph::graph_find_edge;
use crate::stable_graph::graph_new;
use crate::stable_graph::graph_node_count;
use crate::stable_graph::graph_node_indices;
use crate::stable_graph::graph_node_weight;
use crate::stable_graph::graph_nodes;
use crate::stable_graph::graph_remove_edge;
use crate::stable_graph::graph_remove_node;
use crate::types::Node;
use petgraph::stable_graph::StableGraph;
use petgraph::Directed;
use vstd::prelude::*;

verus! {

/// A store of edges, each under its own index.
type EdgeStore = Map<u32, (VertexId, VertexId)>;

/// A fresh index adds its edge to the edges stored.
proof fn lemma_store_insert(store: EdgeStore, id: u32, edge: (VertexId, VertexId))
    requires
        !store.contains_key(id),
    ensures
        store.insert(id, edge).values() == store.values().insert(edge),
{
    let after = store.insert(id, edge);
    assert forall|p: (VertexId, VertexId)| after.values().contains(p) implies store.values().insert(
        edge,
    ).contains(p) by {
        let k = choose|k: u32| after.contains_key(k) && after[k] == p;
        if k != id {
            assert(store.contains_key(k) && store[k] == p);
        }
    }
    assert forall|p: (VertexId, VertexId)| store.values().insert(edge).contains(
        p,
    ) implies after.values().contains(p) by {
        if p == edge {
            assert(after.contains_key(id) && after[id] == p);
        } else {
            let k = choose|k: u32| store.contains_key(k) && store[k] == p;
            assert(after.contains_key(k) && after[k] == p);
        }
    }
    assert(after.values() =~= store.values().insert(edge));
}

/// Where no edge is stored twice, dropping an index drops its edge from the
/// edges stored.
proof fn lemma_store_remove(store: EdgeStore, id: u32)
    requires
        store.is_injective(),
        store.contains_key(id),
    ensures
        store.remove(id).values() == store.values().remove(store[id]),
        store.remove(id).is_injective(),
{
    let after = store.remove(id);
    assert forall|p: (VertexId, VertexId)| after.values().contains(p) implies store.values().remove(
        store[id],
    ).contains(p) by {
        let k = choose|k: u32| after.contains_key(k) && after[k] == p;
        assert(store.contains_key(k) && store[k] == p);
    }
    assert forall|p: (VertexId, VertexId)| store.values().remove(store[id]).contains(
        p,
    ) implies after.values().contains(p) by {
        let k = choose|k: u32| store.contains_key(k) && store[k] == p;
        assert(after.contains_key(k) && after[k] == p);
    }
    assert(after.values() =~= store.values().remove(store[id]));
}

/// Dropping the indices of the edges that touch `a` leaves the edges that do
/// not touch it.
proof fn lemma_store_clear_of(store: EdgeStore, a: VertexId)
    requires
        store.is_injective(),
        store.dom().finite(),
    ensures
        edges_clear_of(store, a).values() == store.values().filter(
            |e: (VertexId, VertexId)| e.0 != a && e.1 != a,
        ),
        edges_clear_of(store, a).is_injective(),
        edges_clear_of(store, a).dom().finite(),
{
    let after = edges_clear_of(store, a);
    let kept = store.values().filter(|e: (VertexId, VertexId)| e.0 != a && e.1 != a);
    assert forall|p: (VertexId, VertexId)| after.values().contains(p) implies kept.contains(p) by {
        let k = choose|k: u32| after.contains_key(k) && after[k] == p;
        assert(store.contains_key(k) && store[k] == p);
    }
    assert forall|p: (VertexId, VertexId)| kept.contains(p) implies after.values().contains(p) by {
        let k = choose|k: u32| store.contains_key(k) && store[k] == p;
        assert(after.contains_key(k) && after[k] == p);
    }
    assert(after.values() =~= kept);
    assert(after.dom().subset_of(store.dom()));
    vstd::set_lib::lemma_len_subset(after.dom(), store.dom());
}

/// Where no edge is stored twice, the indices of the edges at a vertex are as
/// many as those edges.
proof fn lemma_store_degree(store: EdgeStore, ids: Seq<u32>, a: VertexId, dir: Direction)
    requires
        store.is_injective(),
        store.dom().finite(),
        ids.no_duplicates(),
        forall|e: u32| ids.contains(e) <==> edge_touches(store, e, a, dir),
    ensures
        ids.len() == store.values().filter(
            |e: (VertexId, VertexId)| TreeModel::anchor(e, dir) == a,
        ).len(),
{
    let found = ids.to_set();
    let at = store.values().filter(|e: (VertexId, VertexId)| TreeModel::anchor(e, dir) == a);
    let edge_of = |e: u32| store[e];
    ids.unique_seq_to_set();
    assert(found.subset_of(store.dom()));
    vstd::set_lib::lemma_len_subset(found, store.dom());
    assert forall|p: (VertexId, VertexId)| found.map(edge_of).contains(p) implies at.contains(p) by {
        let e = choose|e: u32| found.contains(e) && p == edge_of(e);
        assert(store.contains_key(e) && store[e] == p);
    }
    assert forall|p: (VertexId, VertexId)| at.contains(p) implies found.map(edge_of).contains(p) by {
        let e = choose|e: u32| store.contains_key(e) && store[e] == p;
        assert(edge_touches(store, e, a, dir));
        assert(found.contains(e) && p == edge_of(e));
    }
    assert(found.map(edge_of) =~= at);
    assert(vstd::relations::injective_on(edge_of, found));
    vstd::set_lib::lemma_map_size(found, at, edge_of);
}

/// A directed graph of blocks in which no vertex ever holds more incoming or
/// outgoing edges than its block accepts.
pub struct ClockTree {
    graph: StableGraph<Node, (), Directed, u32>,
}

impl View for ClockTree {
    type V = TreeModel;

    closed spec fn view(&self) -> TreeModel {
        TreeModel { nodes: graph_nodes(self.graph), edges: graph_edges(self.graph).values() }
    }
}

impl Default for ClockTree {
    /// An empty tree.
    fn default() -> (tree: ClockTree)
        ensures
            tree.wf(),
            tree@ == TreeModel::empty(),
    {
        ClockTree::new()
    }
}

impl ClockTree {
    /// The storage holds finitely many edges and none of them twice.
    pub closed spec fn storage_wf(&self) -> bool {
        graph_edges(self.graph).dom().finite() && graph_edges(self.graph).is_injective()
    }

    /// The tree is well formed, as its model says, and so is its storage.
    pub open spec fn wf(&self) -> bool {
        self@.wf() && self.storage_wf()
    }

    /// An empty tree.
    pub fn new() -> (tree: ClockTree)
        ensures
            tree.wf(),
            tree@ == TreeModel::empty(),
    {
        let tree = ClockTree { graph: graph_new() };
        proof {
            assert(graph_nodes(tree.graph) =~= Map::empty());
            assert(graph_edges(tree.graph) =~= Map::empty());
            assert(tree@.edges =~= Set::empty());
            assert forall|v: VertexId, dir: Direction| tree@.incident(v, dir).len() == 0 by {
                assert(tree@.incident(v, dir) =~= Set::empty());
            }
        }
        tree
    }

    /// The number of vertices.
    pub fn node_count(&self) -> (n: usize)
        ensures
            n == self@.nodes.len(),
    {
        graph_node_count(&self.graph)
    }

    /// The number of edges.
    pub fn edge_count(&self) -> (n: usize)
        requires
            self.wf(),
        ensures
            n == self@.edges.len(),
    {
        proof {
            graph_edges(self.graph).lemma_injective_values_len();
        }
        graph_edge_count(&self.graph)
    }

    /// The block at the vertex `id`, if the tree holds that vertex.
    pub fn node_weight(&self, id: VertexId) -> (node: Option<&Node>)
        ensures
            self@.nodes.contains_key(id) ==> node == Some(&self@.nodes[id]),
            !self@.nodes.contains_key(id) ==> node is None,
    {
        graph_node_weight(&self.graph, id)
    }

    /// Whether the tree holds an edge from `from` to `to`.
    pub fn contains_edge(&self, from: VertexId, to: VertexId) -> (b: bool)
        ensures
            b == self@.edges.contains((from, to)),
    {
        let found = graph_find_edge(&self.graph, from, to);
        proof {
            let store = graph_edges(self.graph);
            if found is Some {
                assert(store.contains_key(found->Some_0) && store[found->Some_0] == (from, to));
            }
        }
        found.is_some()
    }

    /// How many edges touch the vertex `id` on the side `dir`. A vertex that
    /// is not in the tree has none.
    pub fn degree(&self, id: VertexId, dir: Direction) -> (d: usize)
        requires
            self.wf(),
        ensures
            d == self@.degree(id, dir),
    {
        if graph_node_weight(&self.graph, id).is_none() {
            proof {
                self@.lemma_untouched_degree(id, dir);
            }
            return 0;
        }
        let ids = graph_edges_directed(&self.graph, id, dir);
        proof {
            lemma_store_degree(graph_edges(self.graph), ids@, id, dir);
        }
        ids.len()
    }

    /// How many edges arrive at the vertex `id`.
    pub fn in_degree(&self, id: VertexId) -> (d: usize)
        requires
            self.wf(),
        ensures
            d == self@.in_degree(id),
    {
        self.degree(id, Direction::Incoming)
    }

    /// How many edges leave the vertex `id`.
    pub fn out_degree(&self, id: VertexId) -> (d: usize)
        requires
            self.wf(),
        ensures
            d == self@.out_degree(id),
    {
        self.degree(id, Direction::Outgoing)
    }

    /// All vertices of the tree, in rising order of their identities.
    pub fn node_indices(&self) -> (ids: Vec<VertexId>)
        ensures
            ascending(ids@),
            forall|v: VertexId| ids@.contains(v) <==> self@.nodes.contains_key(v),
    {
        graph_node_indices(&self.graph)
    }

    /// Adds `node` to the tree and returns the identity it was given, which no
    /// vertex of the tree had. No edge touches the new vertex.
    pub fn add_node(&mut self, node: Node) -> (id: VertexId)
        requires
            old(self).wf(),
            old(self)@.nodes.len() < u32::MAX,
        ensures
            final(self).wf(),
            !old(self)@.nodes.contains_key(id),
            final(self)@ == old(self)@.add_node(id, node),
    {
        let id = graph_add_node(&mut self.graph, node);
        proof {
            old(self)@.lemma_add_node_wf(id, node);
        }
        id
    }

    /// Adds `node` as `add_node` does, unless the tree already holds as many
    /// vertices as there are identities; it then changes nothing and returns
    /// `None`.
    pub fn try_add_node(&mut self, node: Node) -> (added: Option<VertexId>)
        requires
            old(self).wf(),
        ensures
            final(self).wf(),
            added is Some <==> old(self)@.nodes.len() < u32::MAX,
            added is Some ==> !old(self)@.nodes.contains_key(added->Some_0),
            added is Some ==> final(self)@ == old(self)@.add_node(added->Some_0, node),
            added is None ==> final(self)@ == old(self)@,
    {
        if self.node_count() < u32::MAX as usize {
            Some(self.add_node(node))
        } else {
            None
        }
    }

    /// Removes the vertex `id` and every edge that touches it, and returns the
    /// block that stood there. Fails, changing nothing, where the tree does
    /// not hold the vertex. The identities of all other vertices stay as they
    /// are.
    pub fn remove_node(&mut self, id: VertexId) -> (removed: Result<Node, UnknownVertex>)
        requires
            old(self).wf(),
        ensures
            final(self).wf(),
            old(self)@.nodes.contains_key(id) ==> removed == Ok::<Node, UnknownVertex>(
                old(self)@.nodes[id],
            ) && final(self)@ == old(self)@.remove_node(id),
            !old(self)@.nodes.contains_key(id) ==> removed == Err::<Node, UnknownVertex>(
                UnknownVertex,
            ) && final(self)@ == old(self)@,
    {
        let taken = graph_remove_node(&mut self.graph, id);
        proof {
            let before = graph_edges(old(self).graph);
            if old(self)@.nodes.contains_key(id) {
                lemma_store_clear_of(before, id);
                old(self)@.lemma_remove_node_wf(id);
                assert(self@.edges =~= old(self)@.remove_node(id).edges);
            } else {
                assert(graph_nodes(self.graph) =~= graph_nodes(old(self).graph));
            }
        }
        match taken {
            Some(node) => Ok(node),
            None => Err(UnknownVertex),
        }
    }

    /// Asks for an edge from `from` to `to`. The request is refused with
    /// `UnknownVertex` where either vertex is not in the tree, with `SelfLoop`
    /// where the two are the same vertex, and with `PortExhausted` where the
    /// edge is new and `from` has no free output or `to` no free input. A
    /// refused request changes nothing; a granted one leaves the edge in the
    /// tree.
    pub fn connect(&mut self, from: VertexId, to: VertexId) -> (outcome: Result<(), ConnectError>)
        requires
            old(self).wf(),
            old(self)@.edges.len() < u32::MAX,
        ensures
            final(self).wf(),
            outcome == old(self)@.connect_outcome(from, to),
            final(self)@ == old(self)@.connect(from, to),
    {
        let output_limit = match graph_node_weight(&self.graph, from) {
            Some(source) => source.max_outputs(),
            None => {
                return Err(ConnectError::UnknownVertex);
            },
        };
        let input_limit = match graph_node_weight(&self.graph, to) {
            Some(target) => target.max_inputs(),
            None => {
                return Err(ConnectError::UnknownVertex);
            },
        };
        if from == to {
            return Err(ConnectError::SelfLoop);
        }
        if self.contains_edge(from, to) {
            proof {
                assert(self@.edges.insert((from, to)) =~= self@.edges);
            }
            return Ok(());
        }
        if self.degree(from, Direction::Outgoing) >= output_limit || self.degree(
            to,
            Direction::Incoming,
        ) >= input_limit {
            return Err(ConnectError::PortExhausted);
        }
        proof {
            graph_edges(self.graph).lemma_injective_values_len();
        }
        let id = graph_add_edge(&mut self.graph, from, to);
        proof {
            lemma_store_insert(graph_edges(old(self).graph), id, (from, to));
            old(self)@.lemma_connect_wf(from, to);
        }
        Ok(())
    }

    /// Asks for an edge as `connect` does, unless the tree already holds as
    /// many edges as its storage can number; it then changes nothing and
    /// returns `None`.
    pub fn try_connect(&mut self, from: VertexId, to: VertexId) -> (outcome: Option<
        Result<(), ConnectError>,
    >)
        requires
            old(self).wf(),
        ensures
            final(self).wf(),
            outcome is Some <==> old(self)@.edges.len() < u32::MAX,
            outcome is Some ==> outcome->Some_0 == old(self)@.connect_outcome(from, to),
            outcome is Some ==> final(self)@ == old(self)@.connect(from, to),
            outcome is None ==> final(self)@ == old(self)@,
    {
        if self.edge_count() < u32::MAX as usize {
            Some(self.connect(from, to))
        } else {
            None
        }
    }

    /// Removes the edge from `from` to `to`. Where the tree holds no such
    /// edge, nothing changes.
    pub fn disconnect(&mut self, from: VertexId, to: VertexId)
        requires
            old(self).wf(),
        ensures
            final(self).wf(),
            final(self)@ == old(self)@.disconnect(from, to),
    {
        match graph_find_edge(&self.graph, from, to) {
            Some(e) => {
                let _ = graph_remove_edge(&mut self.graph, e);
                proof {
                    lemma_store_remove(graph_edges(old(self).graph), e);
                    old(self)@.lemma_disconnect_wf(from, to);
                }
            },
            None => {
                proof {
                    assert(self@.edges.remove((from, to)) =~= self@.edges);
                }
            },
        }
    }

    /// The vertices that no edge touches on the side `dir`, in rising order of
    /// their identities: with `Incoming`, those that nothing feeds; with
    /// `Outgoing`, those that feed nothing.
    pub fn externals(&self, dir: Direction) -> (ids: Vec<VertexId>)
        requires
            self.wf(),
        ensures
            ascending(ids@),
            forall|v: VertexId|
                ids@.contains(v) <==> self@.nodes.contains_key(v) && self@.degree(v, dir) == 0,
    {
        let all = graph_node_indices(&self.graph);
        let mut ids: Vec<VertexId> = Vec::new();
        let mut i: usize = 0;
        while i < all.len()
            invariant
                self.wf(),
                i <= all.len(),
                ascending(all@),
                ascending(ids@),
                forall|k: int, j: int| 0 <= k < ids.len() && i <= j < all.len() ==> ids[k] < all[j],
                forall|v: VertexId|
                    ids@.contains(v) <==> all@.take(i as int).contains(v) && self@.degree(v, dir)
                        == 0,
            decreases all.len() - i,
        {
            let v = all[i];
            let ghost seen = all@.take(i as int);
            let ghost before = ids@;
            let ghost next = all@.take(i + 1);
            proof {
                lemma_prefix_step(all@, i as int);
            }
            if self.degree(v, dir) == 0 {
                ids.push(v);
                proof {
                    assert forall|x: VertexId| ids@.contains(x) <==> before.contains(x) || x
                        == v by {
                        if before.contains(x) {
                            let k = choose|k: int| 0 <= k < before.len() && before[k] == x;
                            assert(ids[k] == x);
                        }
                        if x == v {
                            assert(ids[ids.len() - 1] == x);
                        }
                    }
                }
            }
            proof {
                assert forall|x: VertexId|
                    ids@.contains(x) <==> next.contains(x) && self@.degree(x, dir) == 0 by {
                    assert(before.contains(x) <==> seen.contains(x) && self@.degree(x, dir) == 0);
                }
            }
            i = i + 1;
        }
        proof {
            assert(all@.take(i as int) =~= all@);
        }
        ids
    }
}

} // verus!
