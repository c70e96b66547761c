//! The mathematical model of a clock tree: which vertices it holds, which
//! edges join them, and what it means for the tree to be well formed.

use crate::types::Node;
use vstd::prelude::*;

verus! {

/// The identity of a vertex. It stays the same for as long as the vertex is in
/// the tree, whatever happens to other vertices.
pub type VertexId = u32;

/// The side of a vertex that a question about its edges is asked of.
#[derive(Clone, Copy, Debug, PartialEq, Eq, Structural, Hash)]
pub enum Direction {
    /// Edges that leave the vertex.
    Outgoing,
    /// Edges that arrive at the vertex.
    Incoming,
}

/// Whether the identities in `s` stand in rising order, none of them twice.
/// This is the order in which a tree hands out its vertices.
pub open spec fn ascending(s: Seq<VertexId>) -> bool {
    forall|i: int, j: int| 0 <= i < j < s.len() ==> s[i] < s[j]
}

/// Going one step further along a run of identities adds the identity at that
/// step to those already passed; in a rising run it was not among them.
pub proof fn lemma_prefix_step(s: Seq<VertexId>, i: int)
    requires
        0 <= i < s.len(),
    ensures
        forall|x: VertexId| s.take(i + 1).contains(x) <==> s.take(i).contains(x) || x == s[i],
        ascending(s) ==> !s.take(i).contains(s[i]),
{
    let seen = s.take(i);
    let next = s.take(i + 1);
    assert forall|x: VertexId| next.contains(x) <==> seen.contains(x) || x == s[i] by {
        if seen.contains(x) {
            let j = choose|j: int| 0 <= j < seen.len() && seen[j] == x;
            assert(next[j] == x);
        }
        if x == s[i] {
            assert(next[i] == x);
        }
        if next.contains(x) {
            let j = choose|j: int| 0 <= j < next.len() && next[j] == x;
            if j < i {
                assert(seen[j] == x);
            }
        }
    }
    if ascending(s) && seen.contains(s[i]) {
        let j = choose|j: int| 0 <= j < seen.len() && seen[j] == s[i];
        assert(s[j] < s[i]);
    }
}

/// The error of naming a vertex that the tree does not hold.
#[derive(Clone, Copy, Debug, PartialEq, Eq, Structural, Hash)]
pub struct UnknownVertex;

/// Why two vertices could not be connected.
#[derive(Clone, Copy, Debug, PartialEq, Eq, Structural, Hash)]
pub enum ConnectError {
    /// One of the two vertices is not in the tree.
    UnknownVertex,
    /// One of the two vertices has no free port left for the edge.
    PortExhausted,
    /// The edge would lead from a vertex to itself.
    SelfLoop,
}

/// A clock tree as a mathematical value: a finite map from vertex identities
/// to blocks, and a set of edges, each from a producing vertex to a consuming
/// one.
#[verifier::ext_equal]
pub struct TreeModel {
    pub nodes: Map<VertexId, Node>,
    pub edges: Set<(VertexId, VertexId)>,
}

impl TreeModel {
    /// The tree without vertices.
    pub open spec fn empty() -> TreeModel {
        TreeModel { nodes: Map::empty(), edges: Set::empty() }
    }

    /// The vertex that an edge touches on the side `dir`: where it starts for
    /// `Outgoing`, where it ends for `Incoming`.
    pub open spec fn anchor(edge: (VertexId, VertexId), dir: Direction) -> VertexId {
        match dir {
            Direction::Outgoing => edge.0,
            Direction::Incoming => edge.1,
        }
    }

    /// The edges that touch `v` on the side `dir`.
    pub open spec fn incident(self, v: VertexId, dir: Direction) -> Set<(VertexId, VertexId)> {
        self.edges.filter(|e: (VertexId, VertexId)| Self::anchor(e, dir) == v)
    }

    /// How many edges touch `v` on the side `dir`.
    pub open spec fn degree(self, v: VertexId, dir: Direction) -> nat {
        self.incident(v, dir).len()
    }

    /// How many edges arrive at `v`.
    pub open spec fn in_degree(self, v: VertexId) -> nat {
        self.degree(v, Direction::Incoming)
    }

    /// How many edges leave `v`.
    pub open spec fn out_degree(self, v: VertexId) -> nat {
        self.degree(v, Direction::Outgoing)
    }

    /// Every edge joins two vertices of the tree, and no edge joins a vertex to
    /// itself.
    pub open spec fn edges_closed(self) -> bool {
        forall|e: (VertexId, VertexId)| #[trigger]
            self.edges.contains(e) ==> self.nodes.contains_key(e.0) && self.nodes.contains_key(
                e.1,
            ) && e.0 != e.1
    }

    /// No vertex has more incoming or outgoing edges than its block accepts.
    pub open spec fn ports_respected(self) -> bool {
        forall|v: VertexId| #[trigger]
            self.nodes.contains_key(v) ==> self.in_degree(v) <= self.nodes[v].input_limit()
                && self.out_degree(v) <= self.nodes[v].output_limit()
    }

    /// What holds of every clock tree at rest.
    pub open spec fn wf(self) -> bool {
        &&& self.nodes.dom().finite()
        &&& self.edges.finite()
        &&& self.edges_closed()
        &&& self.ports_respected()
    }

    /// The tree with `node` added under the identity `id`.
    pub open spec fn add_node(self, id: VertexId, node: Node) -> TreeModel {
        TreeModel { nodes: self.nodes.insert(id, node), edges: self.edges }
    }

    /// The tree without the vertex `id` and without the edges that touch it.
    pub open spec fn remove_node(self, id: VertexId) -> TreeModel {
        TreeModel {
            nodes: self.nodes.remove(id),
            edges: self.edges.filter(|e: (VertexId, VertexId)| e.0 != id && e.1 != id),
        }
    }

    /// Whether `from` has a free output port and `to` a free input port.
    pub open spec fn ports_free(self, from: VertexId, to: VertexId) -> bool {
        self.out_degree(from) < self.nodes[from].output_limit() && self.in_degree(to)
            < self.nodes[to].input_limit()
    }

    /// The outcome of asking for an edge from `from` to `to`. Both vertices
    /// must be in the tree and differ. An edge that is already there is
    /// granted again, since it takes no further port; a new one needs a free
    /// port at both ends.
    pub open spec fn connect_outcome(self, from: VertexId, to: VertexId) -> Result<
        (),
        ConnectError,
    > {
        if !self.nodes.contains_key(from) || !self.nodes.contains_key(to) {
            Err(ConnectError::UnknownVertex)
        } else if from == to {
            Err(ConnectError::SelfLoop)
        } else if self.edges.contains((from, to)) || self.ports_free(from, to) {
            Ok(())
        } else {
            Err(ConnectError::PortExhausted)
        }
    }

    /// The tree with the edge `e` among its edges.
    pub open spec fn with_edge(self, e: (VertexId, VertexId)) -> TreeModel {
        TreeModel { nodes: self.nodes, edges: self.edges.insert(e) }
    }

    /// The tree after asking for an edge from `from` to `to`: with the edge
    /// where the request is granted, unchanged where it is refused.
    pub open spec fn connect(self, from: VertexId, to: VertexId) -> TreeModel {
        if self.connect_outcome(from, to) is Ok {
            self.with_edge((from, to))
        } else {
            self
        }
    }

    /// The tree without the edge from `from` to `to`.
    pub open spec fn disconnect(self, from: VertexId, to: VertexId) -> TreeModel {
        TreeModel { nodes: self.nodes, edges: self.edges.remove((from, to)) }
    }

    /// Adding an edge adds it to the edges at the vertex it touches on the side
    /// `dir`, and leaves the edges at every other vertex as they were.
    pub proof fn lemma_incident_insert(self, e: (VertexId, VertexId), v: VertexId, dir: Direction)
        ensures
            Self::anchor(e, dir) == v ==> self.with_edge(e).incident(v, dir) == self.incident(
                v,
                dir,
            ).insert(e),
            Self::anchor(e, dir) != v ==> self.with_edge(e).incident(v, dir) == self.incident(
                v,
                dir,
            ),
    {
        let after = self.with_edge(e);
        if Self::anchor(e, dir) == v {
            assert(after.incident(v, dir) =~= self.incident(v, dir).insert(e));
        } else {
            assert(after.incident(v, dir) =~= self.incident(v, dir));
        }
    }

    /// Taking edges away never raises a degree.
    pub proof fn lemma_degree_monotone(self, fewer: TreeModel, v: VertexId, dir: Direction)
        requires
            self.edges.finite(),
            fewer.edges.subset_of(self.edges),
        ensures
            fewer.degree(v, dir) <= self.degree(v, dir),
    {
        assert(fewer.incident(v, dir).subset_of(self.incident(v, dir)));
        vstd::set_lib::lemma_len_subset(fewer.incident(v, dir), self.incident(v, dir));
    }

    /// A vertex that no edge touches has degree zero.
    pub proof fn lemma_untouched_degree(self, v: VertexId, dir: Direction)
        requires
            forall|e: (VertexId, VertexId)| self.edges.contains(e) ==> e.0 != v && e.1 != v,
        ensures
            self.degree(v, dir) == 0,
    {
        assert(self.incident(v, dir) =~= Set::empty());
    }

    /// Adding a vertex under an identity that is not in use keeps the tree well
    /// formed.
    pub proof fn lemma_add_node_wf(self, id: VertexId, node: Node)
        requires
            self.wf(),
            !self.nodes.contains_key(id),
        ensures
            self.add_node(id, node).wf(),
    {
        let after = self.add_node(id, node);
        assert forall|v: VertexId| #[trigger] after.nodes.contains_key(v) implies after.in_degree(v)
            <= after.nodes[v].input_limit() && after.out_degree(v)
            <= after.nodes[v].output_limit() by {
            if v == id {
                self.lemma_untouched_degree(id, Direction::Incoming);
                self.lemma_untouched_degree(id, Direction::Outgoing);
            } else {
                assert(self.nodes.contains_key(v));
            }
        }
    }

    /// Removing a vertex, with the edges that touch it, keeps the tree well
    /// formed.
    pub proof fn lemma_remove_node_wf(self, id: VertexId)
        requires
            self.wf(),
        ensures
            self.remove_node(id).wf(),
    {
        let after = self.remove_node(id);
        assert forall|v: VertexId| #[trigger] after.nodes.contains_key(v) implies after.in_degree(v)
            <= after.nodes[v].input_limit() && after.out_degree(v)
            <= after.nodes[v].output_limit() by {
            assert(self.nodes.contains_key(v));
            self.lemma_degree_monotone(after, v, Direction::Incoming);
            self.lemma_degree_monotone(after, v, Direction::Outgoing);
        }
    }

    /// Port cardinality survives every request for an edge: whether `connect`
    /// grants the request or refuses it, the tree that results is well formed,
    /// so no vertex ever holds more edges than its block accepts.
    pub proof fn lemma_connect_wf(self, from: VertexId, to: VertexId)
        requires
            self.wf(),
        ensures
            self.connect(from, to).wf(),
    {
        let after = self.connect(from, to);
        if self.connect_outcome(from, to) is Ok && !self.edges.contains((from, to)) {
            assert forall|v: VertexId| #[trigger] after.nodes.contains_key(v) implies after.in_degree(
                v,
            ) <= after.nodes[v].input_limit() && after.out_degree(v)
                <= after.nodes[v].output_limit() by {
                assert(self.nodes.contains_key(v));
                self.lemma_incident_insert((from, to), v, Direction::Incoming);
                self.lemma_incident_insert((from, to), v, Direction::Outgoing);
            }
        } else if self.connect_outcome(from, to) is Ok {
            assert(after.edges =~= self.edges);
        }
    }

    /// Removing an edge keeps the tree well formed.
    pub proof fn lemma_disconnect_wf(self, from: VertexId, to: VertexId)
        requires
            self.wf(),
        ensures
            self.disconnect(from, to).wf(),
    {
        let after = self.disconnect(from, to);
        assert forall|v: VertexId| #[trigger] after.nodes.contains_key(v) implies after.in_degree(v)
            <= after.nodes[v].input_limit() && after.out_degree(v)
            <= after.nodes[v].output_limit() by {
            self.lemma_degree_monotone(after, v, Direction::Incoming);
            self.lemma_degree_monotone(after, v, Direction::Outgoing);
        }
    }

    /// The tree after a run of requests for edges, each made of the tree that
    /// the requests before it left behind.
    pub open spec fn connect_all(self, requests: Seq<(VertexId, VertexId)>) -> TreeModel
        decreases requests.len(),
    {
        if requests.len() == 0 {
            self
        } else {
            self.connect_all(requests.drop_last()).connect(requests.last().0, requests.last().1)
        }
    }

    /// A granted request never overfills a port: the edge is in the tree
    /// afterwards, and both of its ends are within their limits.
    pub proof fn lemma_connect_within_limits(self, from: VertexId, to: VertexId)
        requires
            self.wf(),
            self.connect_outcome(from, to) is Ok,
        ensures
            self.connect(from, to).edges.contains((from, to)),
            self.connect(from, to).out_degree(from) <= self.nodes[from].output_limit(),
            self.connect(from, to).in_degree(to) <= self.nodes[to].input_limit(),
    {
        self.lemma_connect_wf(from, to);
        let after = self.connect(from, to);
        assert(after.nodes.contains_key(from));
        assert(after.nodes.contains_key(to));
    }

    /// A refused request leaves the tree exactly as it was.
    pub proof fn lemma_refused_connect_changes_nothing(self, from: VertexId, to: VertexId)
        requires
            self.connect_outcome(from, to) is Err,
        ensures
            self.connect(from, to) == self,
    {
    }

    /// Whatever run of requests for edges is made of a well-formed tree, the
    /// tree is well formed at its end, so that no vertex holds more edges
    /// than its block accepts. A run cut short is a run too, so this holds
    /// after each single request of the run.
    pub proof fn lemma_ports_respected_after_requests(self, requests: Seq<(VertexId, VertexId)>)
        requires
            self.wf(),
        ensures
            self.connect_all(requests).wf(),
            self.connect_all(requests).ports_respected(),
            self.connect_all(requests).nodes == self.nodes,
        decreases requests.len(),
    {
        if requests.len() > 0 {
            self.lemma_ports_respected_after_requests(requests.drop_last());
            self.connect_all(requests.drop_last()).lemma_connect_wf(
                requests.last().0,
                requests.last().1,
            );
        }
    }

    /// Removing a vertex takes its identity out of the tree and leaves every
    /// other vertex under the identity it had, with the block it had: whatever
    /// the tree then hands out as its vertices, `id` is not among them and
    /// all the others are.
    pub proof fn lemma_remove_node_keeps_identities(self, id: VertexId, order: Seq<VertexId>)
        requires
            forall|v: VertexId| order.contains(v) <==> self.remove_node(id).nodes.contains_key(v),
        ensures
            !order.contains(id),
            forall|v: VertexId| v != id && self.nodes.contains_key(v) ==> order.contains(v),
            forall|v: VertexId|
                v != id && self.nodes.contains_key(v) ==> self.remove_node(id).nodes[v]
                    == self.nodes[v],
    {
    }

    /// Removing an edge that is not in the tree changes nothing.
    pub proof fn lemma_disconnect_absent_changes_nothing(self, from: VertexId, to: VertexId)
        requires
            !self.edges.contains((from, to)),
        ensures
            self.disconnect(from, to) == self,
    {
        assert(self.edges.remove((from, to)) =~= self.edges);
    }

    /// Asking for an edge from a vertex of the tree to itself is refused as a
    /// self loop, whatever the block at that vertex.
    pub proof fn lemma_self_loop_refused(self, a: VertexId)
        requires
            self.nodes.contains_key(a),
        ensures
            self.connect_outcome(a, a) == Err::<(), ConnectError>(ConnectError::SelfLoop),
            self.connect(a, a) == self,
    {
    }
}

} // verus!
