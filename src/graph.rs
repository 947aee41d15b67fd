//! The knowledge graph: nodes, directed labelled edges, and the store that
//! keeps them consistent.

use vstd::prelude::*;
use crate::error::ResearchError;
use crate::metadata::json_entries;

verus! {

/// A document, source or user item. Times are UTC milliseconds since the
/// Unix epoch.
pub struct Node {
    pub id: String,
    pub node_type: String,
    pub title: String,
    pub content_path: Option<String>,
    pub metadata: serde_json::Map<String, serde_json::Value>,
    pub created_at: i64,
    pub updated_at: i64,
}

/// A directed labelled relationship between two nodes.
pub struct Edge {
    pub id: String,
    pub source: String,
    pub target: String,
    pub label: String,
    pub created_at: i64,
}

pub struct NodeView {
    pub id: Seq<char>,
    pub node_type: Seq<char>,
    pub title: Seq<char>,
    pub content_path: Option<Seq<char>>,
    pub metadata: Map<Seq<char>, serde_json::Value>,
    pub created_at: int,
    pub updated_at: int,
}

pub struct EdgeView {
    pub id: Seq<char>,
    pub source: Seq<char>,
    pub target: Seq<char>,
    pub label: Seq<char>,
    pub created_at: int,
}

pub open spec fn opt_text(o: Option<String>) -> Option<Seq<char>> {
    match o {
        Some(s) => Some(s@),
        None => None,
    }
}

impl View for Node {
    type V = NodeView;

    open spec fn view(&self) -> NodeView {
        NodeView {
            id: self.id@,
            node_type: self.node_type@,
            title: self.title@,
            content_path: opt_text(self.content_path),
            metadata: json_entries(self.metadata),
            created_at: self.created_at as int,
            updated_at: self.updated_at as int,
        }
    }
}

impl View for Edge {
    type V = EdgeView;

    open spec fn view(&self) -> EdgeView {
        EdgeView {
            id: self.id@,
            source: self.source@,
            target: self.target@,
            label: self.label@,
            created_at: self.created_at as int,
        }
    }
}

/// The whole graph as mathematical values.
pub struct GraphView {
    pub nodes: Seq<NodeView>,
    pub edges: Seq<EdgeView>,
}

pub open spec fn has_node(g: GraphView, id: Seq<char>) -> bool {
    exists|i: int| 0 <= i < g.nodes.len() && #[trigger] g.nodes[i].id == id
}

pub open spec fn has_edge_id(g: GraphView, id: Seq<char>) -> bool {
    exists|i: int| 0 <= i < g.edges.len() && #[trigger] g.edges[i].id == id
}

pub open spec fn links(e: EdgeView, s: Seq<char>, t: Seq<char>) -> bool {
    e.source == s && e.target == t
}

pub open spec fn touches(e: EdgeView, id: Seq<char>) -> bool {
    e.source == id || e.target == id
}

pub open spec fn has_pair(g: GraphView, s: Seq<char>, t: Seq<char>) -> bool {
    exists|i: int| 0 <= i < g.edges.len() && links(#[trigger] g.edges[i], s, t)
}


/// The invariants of the graph: node ids and edge ids are unique, every node
/// was last updated no earlier than it was created, every edge joins two
/// nodes of the graph, and no two edges join the same ordered pair.
pub open spec fn well_formed(g: GraphView) -> bool {
    &&& forall|i: int, j: int|
        0 <= i < j < g.nodes.len() ==> #[trigger] g.nodes[i].id != #[trigger] g.nodes[j].id
    &&& forall|i: int| 0 <= i < g.nodes.len() ==> #[trigger] g.nodes[i].updated_at >= g.nodes[i].created_at
    &&& forall|i: int|
        0 <= i < g.edges.len() ==> has_node(g, #[trigger] g.edges[i].source) && has_node(
            g,
            g.edges[i].target,
        )
    &&& forall|i: int, j: int|
        0 <= i < j < g.edges.len() ==> !links(
            #[trigger] g.edges[i],
            g.edges[j].source,
            #[trigger] g.edges[j].target,
        )
    &&& forall|i: int, j: int|
        0 <= i < j < g.edges.len() ==> #[trigger] g.edges[i].id != #[trigger] g.edges[j].id
}

/// A fresh node: no content yet, created and updated at `now`.
pub open spec fn new_node(
    id: Seq<char>,
    node_type: Seq<char>,
    title: Seq<char>,
    content_path: Option<Seq<char>>,
    metadata: Map<Seq<char>, serde_json::Value>,
    now: int,
) -> NodeView {
    NodeView { id, node_type, title, content_path, metadata, created_at: now, updated_at: now }
}

/// The time a node is stamped with when changed at `now`: never before its
/// last update, so that a clock set back keeps the order of the stamps.
pub open spec fn bump(n: NodeView, now: int) -> int {
    if now > n.updated_at {
        now
    } else {
        n.updated_at
    }
}

/// Whether an edge survives a removal: by pair, unless it goes from `a` to
/// `b`; else unless it touches `a`.
pub open spec fn keep_edge(e: EdgeView, a: Seq<char>, b: Seq<char>, by_pair: bool) -> bool {
    if by_pair {
        !links(e, a, b)
    } else {
        !touches(e, a)
    }
}

/// The graph after removing node `id` and every edge that touches it.
pub open spec fn delete_spec(g: GraphView, id: Seq<char>) -> GraphView {
    GraphView {
        nodes: g.nodes.filter(|n: NodeView| n.id != id),
        edges: g.edges.filter(|e: EdgeView| keep_edge(e, id, id, false)),
    }
}

/// The graph after removing every edge from `s` to `t`.
pub open spec fn disconnect_spec(g: GraphView, s: Seq<char>, t: Seq<char>) -> GraphView {
    GraphView { nodes: g.nodes, edges: g.edges.filter(|e: EdgeView| keep_edge(e, s, t, true)) }
}

/// The graph after connecting `s` to `t`: unchanged when that pair is already
/// joined, else with one new edge.
pub open spec fn connect_spec(
    g: GraphView,
    s: Seq<char>,
    t: Seq<char>,
    label: Seq<char>,
    edge_id: Seq<char>,
    now: int,
) -> GraphView {
    if has_pair(g, s, t) {
        g
    } else {
        GraphView {
            nodes: g.nodes,
            edges: g.edges.push(EdgeView { id: edge_id, source: s, target: t, label, created_at: now }),
        }
    }
}

/// When connecting `s` to `t` fails: the pair is not joined yet and an
/// endpoint is missing, or the new edge's id is taken.
pub open spec fn connect_refused(g: GraphView, s: Seq<char>, t: Seq<char>, edge_id: Seq<char>) -> bool {
    !has_pair(g, s, t) && (!has_node(g, s) || !has_node(g, t) || has_edge_id(g, edge_id))
}

/// The label of an edge: the one given, else `"related"`.
pub open spec fn label_or_default(label: Option<Seq<char>>) -> Seq<char> {
    match label {
        Some(l) => l,
        None => seq!['r', 'e', 'l', 'a', 't', 'e', 'd'],
    }
}

/// The name of the artifact file that holds a node's content.
pub open spec fn artifact_name(id: Seq<char>) -> Seq<char> {
    id + seq!['.', 'm', 'd']
}

/// The graph after the content of node `id` was saved at `now`: the node
/// refers to its artifact file and is stamped; nothing else changes.
pub open spec fn content_spec(g: GraphView, id: Seq<char>, now: int) -> GraphView {
    GraphView {
        nodes: g.nodes.map_values(
            |n: NodeView| if n.id == id { with_content(n, artifact_name(id), now) } else { n },
        ),
        edges: g.edges,
    }
}

/// The graph after the position of node `id` was set at `now`.
pub open spec fn position_spec(
    g: GraphView,
    id: Seq<char>,
    x: serde_json::Value,
    y: serde_json::Value,
    now: int,
) -> GraphView {
    GraphView {
        nodes: g.nodes.map_values(
            |n: NodeView| if n.id == id { with_position(n, x, y, now) } else { n },
        ),
        edges: g.edges,
    }
}

/// Node `n` after its content was saved to `path` at `now`.
pub open spec fn with_content(n: NodeView, path: Seq<char>, now: int) -> NodeView {
    NodeView { content_path: Some(path), updated_at: bump(n, now), ..n }
}

/// Node `n` after its position was set to `x`, `y` at `now`: the two keys
/// are set in its metadata, every other key kept.
pub open spec fn with_position(n: NodeView, x: serde_json::Value, y: serde_json::Value, now: int) -> NodeView {
    NodeView {
        metadata: n.metadata.insert(seq!['x'], x).insert(seq!['y'], y),
        updated_at: bump(n, now),
        ..n
    }
}

} // verus!
