//! The graph store: nodes and edges kept under the graph's invariants.

use vstd::prelude::*;
use crate::error::ResearchError;
use crate::graph::{
    artifact_name, with_content, with_position, connect_refused, content_spec, position_spec, delete_spec, NodeView, disconnect_spec, keep_edge, EdgeView, connect_spec, has_edge_id, has_node, has_pair, label_or_default,
    links, new_node, opt_text, well_formed, Edge, GraphView, Node,
};
use crate::metadata::json_entries;
use crate::sources::{new_id, now_millis};

verus! {

/// Nodes and edges of the knowledge graph.
pub struct GraphStore {
    nodes: Vec<Node>,
    edges: Vec<Edge>,
}

impl View for GraphStore {
    type V = GraphView;

    closed spec fn view(&self) -> GraphView {
        GraphView {
            nodes: self.nodes@.map_values(|n: Node| n@),
            edges: self.edges@.map_values(|e: Edge| e@),
        }
    }
}

/// Two graphs whose nodes carry the same ids in the same order hold the same ids.
proof fn lemma_same_ids(g1: GraphView, g2: GraphView)
    requires
        g1.nodes.len() == g2.nodes.len(),
        forall|i: int| 0 <= i < g1.nodes.len() ==> #[trigger] g1.nodes[i].id == g2.nodes[i].id,
    ensures
        forall|id: Seq<char>| has_node(g1, id) == has_node(g2, id),
{
    assert forall|id: Seq<char>| has_node(g1, id) implies has_node(g2, id) by {
        let i = choose|i: int| 0 <= i < g1.nodes.len() && #[trigger] g1.nodes[i].id == id;
        assert(g2.nodes[i].id == id);
    }
    assert forall|id: Seq<char>| has_node(g2, id) implies has_node(g1, id) by {
        let i = choose|i: int| 0 <= i < g2.nodes.len() && #[trigger] g2.nodes[i].id == id;
        assert(g1.nodes[i].id == id);
    }
}

/// A filter that keeps everything changes nothing.
proof fn lemma_filter_keeps_all(s: Seq<NodeView>, id: Seq<char>)
    requires
        forall|i: int| 0 <= i < s.len() ==> #[trigger] s[i].id != id,
    ensures
        s.filter(|n: NodeView| n.id != id) == s,
    decreases s.len(),
{
    reveal(Seq::filter);
    if s.len() > 0 {
        lemma_filter_keeps_all(s.drop_last(), id);
        assert(s.drop_last().push(s.last()) =~= s);
    }
}

/// Filtering out the one node with a given id removes it at its index.
proof fn lemma_filter_removes_one(s: Seq<NodeView>, id: Seq<char>, i: int)
    requires
        0 <= i < s.len(),
        s[i].id == id,
        forall|a: int, b: int| 0 <= a < b < s.len() ==> #[trigger] s[a].id != #[trigger] s[b].id,
    ensures
        s.filter(|n: NodeView| n.id != id) == s.remove(i),
    decreases s.len(),
{
    reveal(Seq::filter);
    if i == s.len() - 1 {
        assert forall|a: int| 0 <= a < s.drop_last().len() implies #[trigger] s.drop_last()[a].id
            != id by {
            assert(s[a].id != s[i].id);
        }
        lemma_filter_keeps_all(s.drop_last(), id);
        assert(s.remove(i) =~= s.drop_last());
    } else {
        assert(s.last().id != id) by {
            assert(s[i].id != s[s.len() - 1].id);
        }
        lemma_filter_removes_one(s.drop_last(), id, i);
        assert(s.drop_last().remove(i).push(s.last()) =~= s.remove(i));
    }
}

/// Changing one node, keeping its id and its stamps in order, keeps the graph
/// well formed.
proof fn lemma_update_keeps_wf(g: GraphView, i: int, n: NodeView)
    requires
        well_formed(g),
        0 <= i < g.nodes.len(),
        n.id == g.nodes[i].id,
        n.updated_at >= n.created_at,
    ensures
        well_formed(GraphView { nodes: g.nodes.update(i, n), edges: g.edges }),
{
    let h = GraphView { nodes: g.nodes.update(i, n), edges: g.edges };
    lemma_same_ids(g, h);
    assert forall|a: int, b: int|
        0 <= a < b < h.nodes.len() implies #[trigger] h.nodes[a].id != #[trigger] h.nodes[b].id by {
        assert(h.nodes[a].id == g.nodes[a].id);
        assert(h.nodes[b].id == g.nodes[b].id);
    }
}

/// The name of the artifact file holding a node's content: its id and `.md`.
pub fn artifact_file_name(id: &str) -> (r: String)
    ensures
        r@ == artifact_name(id@),
{
    proof {
        reveal_strlit(".md");
    }
    let mut name = String::from_str(id);
    name.append(".md");
    assert(".md"@ =~= seq!['.', 'm', 'd']);
    name
}

impl GraphStore {
    /// An empty graph.
    pub fn new() -> (r: GraphStore)
        ensures
            r@.nodes.len() == 0,
            r@.edges.len() == 0,
            well_formed(r@),
    {
        GraphStore { nodes: Vec::new(), edges: Vec::new() }
    }

    /// The whole graph: every node and every edge, in insertion order.
    pub fn get_graph_data(&self) -> (r: (&Vec<Node>, &Vec<Edge>))
        ensures
            r.0@.map_values(|n: Node| n@) == self@.nodes,
            r.1@.map_values(|e: Edge| e@) == self@.edges,
    {
        (&self.nodes, &self.edges)
    }

    /// Every node, in insertion order.
    pub fn nodes(&self) -> (r: &Vec<Node>)
        ensures
            r@.map_values(|n: Node| n@) == self@.nodes,
    {
        &self.nodes
    }

    /// Every edge, in insertion order.
    pub fn edges(&self) -> (r: &Vec<Edge>)
        ensures
            r@.map_values(|e: Edge| e@) == self@.edges,
    {
        &self.edges
    }


    /// Adds a node with the given fields, created and updated at `now`.
    /// Fails with `Storage`, the graph unchanged, when the id is taken.
    pub fn insert_node(
        &mut self,
        id: String,
        node_type: String,
        title: String,
        content_path: Option<String>,
        metadata: serde_json::Map<String, serde_json::Value>,
        now: i64,
    ) -> (r: Result<(), ResearchError>)
        requires
            well_formed(old(self)@),
        ensures
            well_formed(final(self)@),
            r is Ok <==> !has_node(old(self)@, id@),
            r is Ok ==> final(self)@ == (GraphView {
                nodes: old(self)@.nodes.push(
                    new_node(
                        id@,
                        node_type@,
                        title@,
                        opt_text(content_path),
                        json_entries(metadata),
                        now as int,
                    ),
                ),
                edges: old(self)@.edges,
            }),
            r matches Err(e) ==> e is Storage && final(self)@ == old(self)@,
    {
        if self.find_node(&id).is_some() {
            return Err(ResearchError::Storage(String::from_str("a node with this id exists")));
        }
        let ghost g = self@;
        let node = Node { id, node_type, title, content_path, metadata, created_at: now, updated_at: now };
        self.nodes.push(node);
        assert(self@.nodes =~= g.nodes.push(node@));
        assert(self@.edges =~= g.edges);
        proof {
            assert forall|x: Seq<char>| has_node(g, x) implies has_node(self@, x) by {
                let i = choose|i: int| 0 <= i < g.nodes.len() && #[trigger] g.nodes[i].id == x;
                assert(self@.nodes[i].id == x);
            }
            assert forall|i: int, j: int|
                0 <= i < j < self@.nodes.len() implies #[trigger] self@.nodes[i].id
                != #[trigger] self@.nodes[j].id by {
                if j == g.nodes.len() {
                    assert(g.nodes[i].id != node@.id);
                }
            }
        }
        Ok(())
    }

    /// Creates a node of the given type and title with a fresh id, no
    /// content, the given metadata (an empty object when none), created and
    /// updated now. Returns its id. Fails with `Storage`, the graph
    /// unchanged, only when the fresh id is already taken.
    pub fn create_node(
        &mut self,
        node_type: String,
        title: String,
        metadata: Option<serde_json::Map<String, serde_json::Value>>,
    ) -> (r: Result<String, ResearchError>)
        requires
            well_formed(old(self)@),
        ensures
            well_formed(final(self)@),
            r matches Ok(id) ==> {
                &&& !has_node(old(self)@, id@)
                &&& final(self)@.edges == old(self)@.edges
                &&& final(self)@.nodes == old(self)@.nodes.push(final(self)@.nodes.last())
                &&& final(self)@.nodes.last().id == id@
                &&& final(self)@.nodes.last().node_type == node_type@
                &&& final(self)@.nodes.last().title == title@
                &&& final(self)@.nodes.last().content_path is None
                &&& final(self)@.nodes.last().metadata == match metadata {
                    Some(m) => json_entries(m),
                    None => Map::<Seq<char>, serde_json::Value>::empty(),
                }
                &&& final(self)@.nodes.last().created_at == final(self)@.nodes.last().updated_at
            },
            r matches Err(e) ==> e is Storage && final(self)@ == old(self)@,
            r is Err ==> old(self)@.nodes.len() > 0,
    {
        let id = new_id();
        let now = now_millis();
        let meta = match metadata {
            Some(m) => m,
            None => serde_json::Map::new(),
        };
        let key = id.clone();
        match self.insert_node(id, node_type, title, None, meta, now) {
            Ok(()) => Ok(key),
            Err(e) => Err(e),
        }
    }

    /// Joins `source` to `target` with an edge of the given id, label and
    /// time. Does nothing when the pair is already joined, whatever the label.
    /// Fails, the graph unchanged, with `Storage` when an endpoint is missing
    /// and with `Invariant` when the edge id is taken.
    pub fn connect(
        &mut self,
        source: String,
        target: String,
        label: String,
        edge_id: String,
        now: i64,
    ) -> (r: Result<(), ResearchError>)
        requires
            well_formed(old(self)@),
        ensures
            well_formed(final(self)@),
            r is Err <==> connect_refused(old(self)@, source@, target@, edge_id@),
            r is Ok ==> final(self)@ == connect_spec(
                old(self)@,
                source@,
                target@,
                label@,
                edge_id@,
                now as int,
            ),
            r matches Err(e) ==> final(self)@ == old(self)@ && (if !has_node(old(self)@, source@)
                || !has_node(old(self)@, target@) {
                e is Storage
            } else {
                e is Invariant
            }),
    {
        if self.find_pair(&source, &target) {
            return Ok(());
        }
        if self.find_node(&source).is_none() || self.find_node(&target).is_none() {
            return Err(ResearchError::Storage(String::from_str("an endpoint of the edge does not exist")));
        }
        if self.find_edge_id(&edge_id) {
            return Err(ResearchError::Invariant(String::from_str("an edge with this id exists")));
        }
        let ghost g = self@;
        let edge = Edge { id: edge_id, source, target, label, created_at: now };
        self.edges.push(edge);
        assert(self@.edges =~= g.edges.push(edge@));
        assert(self@.nodes =~= g.nodes);
        proof {
            assert forall|i: int, j: int|
                0 <= i < j < self@.edges.len() implies !links(
                #[trigger] self@.edges[i],
                self@.edges[j].source,
                #[trigger] self@.edges[j].target,
            ) by {
                if j == g.edges.len() {
                    assert(!links(g.edges[i], edge@.source, edge@.target));
                }
            }
            assert forall|i: int, j: int|
                0 <= i < j < self@.edges.len() implies #[trigger] self@.edges[i].id
                != #[trigger] self@.edges[j].id by {
                if j == g.edges.len() {
                    assert(g.edges[i].id != edge@.id);
                }
            }
        }
        Ok(())
    }

    /// Joins `source` to `target` with a fresh edge id, created now, labelled
    /// `label` or `"related"`. Does nothing when the pair is already joined.
    /// Fails, the graph unchanged, with `Storage` when an endpoint is missing,
    /// and with `Invariant` only when the fresh id is already taken.
    pub fn connect_nodes(&mut self, source: String, target: String, label: Option<String>) -> (r:
        Result<(), ResearchError>)
        requires
            well_formed(old(self)@),
        ensures
            well_formed(final(self)@),
            has_pair(old(self)@, source@, target@) ==> r is Ok && final(self)@ == old(self)@,
            r is Ok && !has_pair(old(self)@, source@, target@) ==> {
                &&& final(self)@.nodes == old(self)@.nodes
                &&& final(self)@.edges == old(self)@.edges.push(final(self)@.edges.last())
                &&& final(self)@.edges.last().source == source@
                &&& final(self)@.edges.last().target == target@
                &&& final(self)@.edges.last().label == label_or_default(opt_text(label))
            },
            r matches Err(e) ==> final(self)@ == old(self)@ && !has_pair(old(self)@, source@, target@)
                && (e is Storage <==> (!has_node(old(self)@, source@) || !has_node(old(self)@, target@))),
            !has_pair(old(self)@, source@, target@) && (!has_node(old(self)@, source@) || !has_node(
                old(self)@,
                target@,
            )) ==> r is Err,
            r matches Err(ResearchError::Invariant(_)) ==> old(self)@.edges.len() > 0,
    {
        let edge_id = new_id();
        let now = now_millis();
        let edge_label = match label {
            Some(l) => l,
            None => {
                proof {
                    reveal_strlit("related");
                }
                let l = String::from_str("related");
                assert(l@ =~= label_or_default(None));
                l
            },
        };
        self.connect(source, target, edge_label, edge_id, now)
    }


    /// Keeps the edges that `keep_edge` keeps, in their order.
    fn retain_edges(&mut self, a: &String, b: &String, by_pair: bool)
        requires
            well_formed(old(self)@),
        ensures
            well_formed(final(self)@),
            final(self)@.nodes == old(self)@.nodes,
            final(self)@.edges == old(self)@.edges.filter(|e: EdgeView| keep_edge(e, a@, b@, by_pair)),
    {
        let ghost g = self@;
        let mut rest: Vec<Edge> = Vec::new();
        std::mem::swap(&mut self.edges, &mut rest);
        let ghost orig = rest@.map_values(|e: Edge| e@);
        assert(orig =~= g.edges);
        assert(orig.len() == rest.len());
        let mut k: usize = 0;
        proof {
            reveal(Seq::filter);
            assert(orig.take(0) =~= Seq::<EdgeView>::empty());
            assert(self@.edges =~= Seq::<EdgeView>::empty());
        }
        while rest.len() > 0
            invariant
                orig == g.edges,
                orig.len() <= usize::MAX,
                well_formed(g),
                well_formed(self@),
                self@.nodes == g.nodes,
                k + rest.len() == orig.len(),
                rest@.map_values(|e: Edge| e@) == orig.skip(k as int),
                self@.edges == orig.take(k as int).filter(|e: EdgeView| keep_edge(e, a@, b@, by_pair)),
                forall|i: int|
                    0 <= i < self@.edges.len() ==> exists|m: int|
                        0 <= m < k && orig[m] == #[trigger] self@.edges[i],
            decreases rest.len(),
        {
            let ghost before = self@.edges;
            assert(rest@.map_values(|e: Edge| e@)[0] == orig.skip(k as int)[0]);
            let ghost rv = rest@;
            let e = rest.remove(0);
            assert(e@ == orig[k as int]);
            assert forall|x: int| 0 <= x < rest.len() implies rest@.map_values(|e: Edge| e@)[x]
                == #[trigger] orig.skip(k + 1)[x] by {
                assert(rest@[x] == rv[x + 1]);
                assert(rv.map_values(|e: Edge| e@)[x + 1] == orig.skip(k as int)[x + 1]);
            }
            assert(rest@.map_values(|e: Edge| e@) =~= orig.skip(k + 1));
            assert(orig.take(k + 1).drop_last() =~= orig.take(k as int));
            assert(orig.take(k + 1).last() == orig[k as int]);
            proof {
                reveal(Seq::filter);
            }
            let keep = if by_pair {
                !(e.source == *a && e.target == *b)
            } else {
                !(e.source == *a || e.target == *a)
            };
            assert(e@.source == e.source@ && e@.target == e.target@);
            assert(keep == keep_edge(e@, a@, b@, by_pair));
            assert(orig.take(k + 1).filter(|e: EdgeView| keep_edge(e, a@, b@, by_pair)) == if keep {
                before.push(e@)
            } else {
                before
            });
            if keep {
                self.edges.push(e);
                assert(self@.edges =~= before.push(e@));
                assert(self@.nodes == g.nodes);
                proof {
                    lemma_same_ids(g, self@);
                }
                assert forall|i: int|
                    0 <= i < self@.edges.len() implies exists|m: int|
                        0 <= m < k + 1 && orig[m] == #[trigger] self@.edges[i] by {
                    if i == before.len() {
                        assert(orig[k as int] == self@.edges[i]);
                    } else {
                        assert(self@.edges[i] == before[i]);
                    }
                }
                assert forall|i: int, j: int|
                    0 <= i < j < self@.edges.len() implies !links(
                    #[trigger] self@.edges[i],
                    self@.edges[j].source,
                    #[trigger] self@.edges[j].target,
                ) && self@.edges[i].id != self@.edges[j].id by {
                    if j == before.len() {
                        assert(self@.edges[i] == before[i]);
                        let m = choose|m: int| 0 <= m < k && orig[m] == #[trigger] before[i];
                        assert(g.edges[m] == before[i]);
                        assert(g.edges[k as int] == e@);
                    } else {
                        assert(self@.edges[i] == before[i]);
                        assert(self@.edges[j] == before[j]);
                    }
                }
                assert forall|i: int| 0 <= i < self@.edges.len() implies has_node(
                    self@,
                    #[trigger] self@.edges[i].source,
                ) && has_node(self@, self@.edges[i].target) by {
                    if i == before.len() {
                        assert(g.edges[k as int] == e@);
                        assert(has_node(g, g.edges[k as int].source));
                    } else {
                        assert(self@.edges[i] == before[i]);
                        let m = choose|m: int| 0 <= m < k && orig[m] == #[trigger] before[i];
                        assert(g.edges[m] == before[i]);
                        assert(has_node(g, g.edges[m].source));
                    }
                }
            }
            k = k + 1;
        }
        proof {
            assert(orig.take(k as int) =~= orig);
        }
    }

    /// Removes node `id`, every edge that touches it, and returns the path of
    /// its content, if it had one, for the caller to delete. Removing a
    /// missing node changes nothing.
    pub fn delete_node(&mut self, id: &str) -> (r: Option<String>)
        requires
            well_formed(old(self)@),
        ensures
            well_formed(final(self)@),
            final(self)@ == delete_spec(old(self)@, id@),
            match r {
                Some(p) => exists|i: int|
                    0 <= i < old(self)@.nodes.len() && #[trigger] old(self)@.nodes[i].id == id@
                        && old(self)@.nodes[i].content_path == Some(p@),
                None => forall|i: int|
                    0 <= i < old(self)@.nodes.len() && #[trigger] old(self)@.nodes[i].id == id@
                        ==> old(self)@.nodes[i].content_path is None,
            },
    {
        let key = String::from_str(id);
        let ghost g = self@;
        self.retain_edges(&key, &key, false);
        let ghost g1 = self@;
        match self.find_node(&key) {
            None => {
                proof {
                    lemma_filter_keeps_all(g.nodes, id@);
                }
                assert(self@ =~= delete_spec(g, id@));
                None
            },
            Some(i) => {
                let node = self.nodes.remove(i);
                assert(self@.nodes =~= g.nodes.remove(i as int));
                proof {
                    lemma_filter_removes_one(g.nodes, id@, i as int);
                    assert(self@ =~= delete_spec(g, id@));
                    assert forall|a: int, b: int|
                        0 <= a < b < self@.nodes.len() implies #[trigger] self@.nodes[a].id
                        != #[trigger] self@.nodes[b].id by {
                        if a < i {
                            if b < i {
                            } else {
                                assert(self@.nodes[b] == g.nodes[b + 1]);
                            }
                        } else {
                            assert(self@.nodes[a] == g.nodes[a + 1]);
                            assert(self@.nodes[b] == g.nodes[b + 1]);
                        }
                    }
                    assert forall|a: int| 0 <= a < self@.nodes.len() implies #[trigger] self@.nodes[a].updated_at
                        >= self@.nodes[a].created_at by {
                        if a >= i {
                            assert(self@.nodes[a] == g.nodes[a + 1]);
                        }
                    }
                    assert forall|x: Seq<char>| x != id@ && has_node(g, x) implies has_node(self@, x) by {
                        let m = choose|m: int| 0 <= m < g.nodes.len() && #[trigger] g.nodes[m].id == x;
                        if m < i {
                            assert(self@.nodes[m].id == x);
                        } else {
                            assert(m != i);
                            assert(self@.nodes[m - 1].id == x);
                        }
                    }
                    assert forall|e: int| 0 <= e < self@.edges.len() implies has_node(
                        self@,
                        #[trigger] self@.edges[e].source,
                    ) && has_node(self@, self@.edges[e].target) by {
                        assert(self@.edges[e] == g1.edges[e]);
                        assert(has_node(g1, g1.edges[e].source));
                        lemma_same_ids(g, g1);
                        g.edges.lemma_filter_pred(|e: EdgeView| keep_edge(e, id@, id@, false), e);
                    }
                }
                node.content_path
            },
        }
    }

    /// Records that the content of node `id` was saved to its artifact file:
    /// the node refers to that file and is stamped at `now` (never earlier
    /// than its last stamp). Fails with `NotFound`, the graph unchanged, when
    /// there is no such node.
    pub fn set_content(&mut self, id: &str, now: i64) -> (r: Result<(), ResearchError>)
        requires
            well_formed(old(self)@),
        ensures
            well_formed(final(self)@),
            r is Ok <==> has_node(old(self)@, id@),
            r is Ok ==> final(self)@ == content_spec(old(self)@, id@, now as int),
            r matches Err(e) ==> e is NotFound && final(self)@ == old(self)@,
    {
        let key = String::from_str(id);
        match self.find_node(&key) {
            None => Err(ResearchError::NotFound(String::from_str("no node with this id"))),
            Some(i) => {
                let ghost g = self@;
                let path = artifact_file_name(id);
                let node = self.nodes.remove(i);
                let Node { id: nid, node_type, title, content_path: _, metadata, created_at, updated_at } =
                    node;
                let stamp = if now > updated_at {
                    now
                } else {
                    updated_at
                };
                let fresh = Node {
                    id: nid,
                    node_type,
                    title,
                    content_path: Some(path),
                    metadata,
                    created_at,
                    updated_at: stamp,
                };
                self.nodes.insert(i, fresh);
                assert(self@.nodes =~= g.nodes.update(i as int, fresh@));
                assert(fresh@ == with_content(g.nodes[i as int], artifact_name(id@), now as int));
                proof {
                    lemma_update_keeps_wf(g, i as int, fresh@);
                    assert(self@.nodes =~= content_spec(g, id@, now as int).nodes) by {
                        assert forall|a: int| 0 <= a < g.nodes.len() && a != i implies #[trigger] g.nodes[a].id != id@ by {
                            if a < i {
                                assert(g.nodes[a].id != g.nodes[i as int].id);
                            } else {
                                assert(g.nodes[i as int].id != g.nodes[a].id);
                            }
                        }
                    }
                }
                assert(self@ == content_spec(g, id@, now as int));
                Ok(())
            },
        }
    }

    /// Sets the position of node `id`: keys `x` and `y` of its metadata take
    /// the given values, every other key is kept, and the node is stamped at
    /// `now` (never earlier than its last stamp). Fails with `NotFound`, the
    /// graph unchanged, when there is no such node.
    pub fn set_position(
        &mut self,
        id: &str,
        x: serde_json::Value,
        y: serde_json::Value,
        now: i64,
    ) -> (r: Result<(), ResearchError>)
        requires
            well_formed(old(self)@),
        ensures
            well_formed(final(self)@),
            r is Ok <==> has_node(old(self)@, id@),
            r is Ok ==> final(self)@ == position_spec(old(self)@, id@, x, y, now as int),
            r matches Err(e) ==> e is NotFound && final(self)@ == old(self)@,
    {
        let key = String::from_str(id);
        match self.find_node(&key) {
            None => Err(ResearchError::NotFound(String::from_str("no node with this id"))),
            Some(i) => {
                let ghost g = self@;
                let node = self.nodes.remove(i);
                let Node { id: nid, node_type, title, content_path, mut metadata, created_at, updated_at } =
                    node;
                let stamp = if now > updated_at {
                    now
                } else {
                    updated_at
                };
                proof {
                    reveal_strlit("x");
                    reveal_strlit("y");
                }
                let kx = String::from_str("x");
                let ky = String::from_str("y");
                assert(kx@ =~= seq!['x']);
                assert(ky@ =~= seq!['y']);
                metadata.insert(kx, x);
                metadata.insert(ky, y);
                let fresh = Node {
                    id: nid,
                    node_type,
                    title,
                    content_path,
                    metadata,
                    created_at,
                    updated_at: stamp,
                };
                self.nodes.insert(i, fresh);
                assert(self@.nodes =~= g.nodes.update(i as int, fresh@));
                assert(fresh@ == with_position(g.nodes[i as int], x, y, now as int));
                proof {
                    lemma_update_keeps_wf(g, i as int, fresh@);
                    assert(self@.nodes =~= position_spec(g, id@, x, y, now as int).nodes) by {
                        assert forall|a: int| 0 <= a < g.nodes.len() && a != i implies #[trigger] g.nodes[a].id != id@ by {
                            if a < i {
                                assert(g.nodes[a].id != g.nodes[i as int].id);
                            } else {
                                assert(g.nodes[i as int].id != g.nodes[a].id);
                            }
                        }
                    }
                }
                assert(self@ == position_spec(g, id@, x, y, now as int));
                Ok(())
            },
        }
    }

    /// Records, stamped now, that the content of node `id` was saved to its
    /// artifact file. Fails with `NotFound`, the graph unchanged, when there
    /// is no such node.
    pub fn save_node_content(&mut self, id: &str) -> (r: Result<(), ResearchError>)
        requires
            well_formed(old(self)@),
        ensures
            well_formed(final(self)@),
            r is Ok <==> has_node(old(self)@, id@),
            r is Ok ==> exists|now: i64| final(self)@ == content_spec(old(self)@, id@, now as int),
            r matches Err(e) ==> e is NotFound && final(self)@ == old(self)@,
    {
        let now = now_millis();
        self.set_content(id, now)
    }

    /// Sets the position of node `id`, stamped now: keys `x` and `y` of its
    /// metadata take the given values and every other key is kept. Fails with
    /// `NotFound`, the graph unchanged, when there is no such node.
    pub fn update_node_position(&mut self, id: &str, x: serde_json::Value, y: serde_json::Value) -> (r:
        Result<(), ResearchError>)
        requires
            well_formed(old(self)@),
        ensures
            well_formed(final(self)@),
            r is Ok <==> has_node(old(self)@, id@),
            r is Ok ==> exists|now: i64| final(self)@ == position_spec(old(self)@, id@, x, y, now as int),
            r matches Err(e) ==> e is NotFound && final(self)@ == old(self)@,
    {
        let now = now_millis();
        self.set_position(id, x, y, now)
    }

    /// Removes every edge from `source` to `target`; nothing when there is none.
    pub fn disconnect_nodes(&mut self, source: &str, target: &str)
        requires
            well_formed(old(self)@),
        ensures
            well_formed(final(self)@),
            final(self)@ == disconnect_spec(old(self)@, source@, target@),
    {
        let s = String::from_str(source);
        let t = String::from_str(target);
        self.retain_edges(&s, &t, true);
        assert(self@ =~= disconnect_spec(old(self)@, source@, target@));
    }

    fn find_node(&self, id: &String) -> (r: Option<usize>)
        ensures
            match r {
                Some(i) => i < self@.nodes.len() && self@.nodes[i as int].id == id@,
                None => !has_node(self@, id@),
            },
    {
        let mut i: usize = 0;
        while i < self.nodes.len()
            invariant
                i <= self.nodes.len(),
                forall|j: int| 0 <= j < i ==> #[trigger] self@.nodes[j].id != id@,
            decreases self.nodes.len() - i,
        {
            if self.nodes[i].id == *id {
                return Some(i);
            }
            i = i + 1;
        }
        None
    }

    fn find_pair(&self, source: &String, target: &String) -> (r: bool)
        ensures
            r == has_pair(self@, source@, target@),
    {
        let mut i: usize = 0;
        while i < self.edges.len()
            invariant
                i <= self.edges.len(),
                forall|j: int| 0 <= j < i ==> !links(#[trigger] self@.edges[j], source@, target@),
            decreases self.edges.len() - i,
        {
            if self.edges[i].source == *source && self.edges[i].target == *target {
                assert(links(self@.edges[i as int], source@, target@));
                return true;
            }
            i = i + 1;
        }
        false
    }

    fn find_edge_id(&self, id: &String) -> (r: bool)
        ensures
            r == has_edge_id(self@, id@),
    {
        let mut i: usize = 0;
        while i < self.edges.len()
            invariant
                i <= self.edges.len(),
                forall|j: int| 0 <= j < i ==> #[trigger] self@.edges[j].id != id@,
            decreases self.edges.len() - i,
        {
            if self.edges[i].id == *id {
                assert(self@.edges[i as int].id == id@);
                return true;
            }
            i = i + 1;
        }
        false
    }

    /// The node with the given id, if there is one.
    pub fn get_node(&self, id: &str) -> (r: Option<&Node>)
        ensures
            r is Some <==> has_node(self@, id@),
            r matches Some(n) ==> n@.id == id@ && self@.nodes.contains(n@),
    {
        let key = String::from_str(id);
        match self.find_node(&key) {
            Some(i) => {
                assert(self@.nodes[i as int] == self.nodes@[i as int]@);
                Some(&self.nodes[i])
            },
            None => None,
        }
    }
}

} // verus!
