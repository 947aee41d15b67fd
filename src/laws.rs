//! Laws of the graph store, stated over the effects its operations promise.

use vstd::prelude::*;
use crate::graph::{
    connect_spec, content_spec, delete_spec, disconnect_spec, has_node, has_pair, has_edge_id,
    keep_edge, links, position_spec, touches, well_formed, EdgeView, GraphView, NodeView,
};

verus! {

/// Exactly one edge goes from `s` to `t`.
pub open spec fn exactly_one_pair(g: GraphView, s: Seq<char>, t: Seq<char>) -> bool {
    exists|i: int|
        0 <= i < g.edges.len() && links(#[trigger] g.edges[i], s, t) && forall|j: int|
            0 <= j < g.edges.len() && j != i ==> !links(#[trigger] g.edges[j], s, t)
}

/// Every node of a well-formed graph was last updated no earlier than it was
/// created, and saving content or setting a position keeps it so.
pub proof fn law_stamps_ordered(
    g: GraphView,
    id: Seq<char>,
    x: serde_json::Value,
    y: serde_json::Value,
    now: int,
)
    requires
        well_formed(g),
    ensures
        forall|i: int| 0 <= i < g.nodes.len() ==> #[trigger] g.nodes[i].updated_at >= g.nodes[i].created_at,
        forall|i: int|
            0 <= i < g.nodes.len() ==> #[trigger] content_spec(g, id, now).nodes[i].updated_at
                >= content_spec(g, id, now).nodes[i].created_at,
        forall|i: int|
            0 <= i < g.nodes.len() ==> #[trigger] position_spec(g, id, x, y, now).nodes[i].updated_at
                >= position_spec(g, id, x, y, now).nodes[i].created_at,
{
    assert forall|i: int| 0 <= i < g.nodes.len() implies #[trigger] content_spec(g, id, now).nodes[i].updated_at
        >= content_spec(g, id, now).nodes[i].created_at by {
        assert(g.nodes[i].updated_at >= g.nodes[i].created_at);
    }
    assert forall|i: int| 0 <= i < g.nodes.len() implies #[trigger] position_spec(g, id, x, y, now).nodes[i].updated_at
        >= position_spec(g, id, x, y, now).nodes[i].created_at by {
        assert(g.nodes[i].updated_at >= g.nodes[i].created_at);
    }
}

/// Every edge of a well-formed graph joins two of its nodes; after deleting
/// node `x`, that node is gone and no edge refers to it.
pub proof fn law_delete_cascades(g: GraphView, x: Seq<char>)
    requires
        well_formed(g),
    ensures
        forall|i: int|
            0 <= i < g.edges.len() ==> has_node(g, #[trigger] g.edges[i].source) && has_node(
                g,
                g.edges[i].target,
            ),
        !has_node(delete_spec(g, x), x),
        forall|i: int|
            0 <= i < delete_spec(g, x).edges.len() ==> !touches(
                #[trigger] delete_spec(g, x).edges[i],
                x,
            ),
{
    let d = delete_spec(g, x);
    assert forall|i: int| 0 <= i < d.edges.len() implies !touches(#[trigger] d.edges[i], x) by {
        g.edges.lemma_filter_pred(|e: EdgeView| keep_edge(e, x, x, false), i);
    }
    if has_node(d, x) {
        let i = choose|i: int| 0 <= i < d.nodes.len() && #[trigger] d.nodes[i].id == x;
        g.nodes.lemma_filter_pred(|n: NodeView| n.id != x, i);
    }
}

/// Connecting two existing nodes twice leaves exactly one edge between them,
/// whatever the labels, ids and times of the two calls.
pub proof fn law_connect_twice(
    g: GraphView,
    s: Seq<char>,
    t: Seq<char>,
    label1: Seq<char>,
    id1: Seq<char>,
    now1: int,
    label2: Seq<char>,
    id2: Seq<char>,
    now2: int,
)
    requires
        well_formed(g),
        has_node(g, s),
        has_node(g, t),
        !has_edge_id(g, id1),
    ensures
        exactly_one_pair(
            connect_spec(connect_spec(g, s, t, label1, id1, now1), s, t, label2, id2, now2),
            s,
            t,
        ),
{
    let g1 = connect_spec(g, s, t, label1, id1, now1);
    if has_pair(g, s, t) {
        let i = choose|i: int| 0 <= i < g.edges.len() && links(#[trigger] g.edges[i], s, t);
        assert forall|j: int| 0 <= j < g.edges.len() && j != i implies !links(#[trigger] g.edges[j], s, t) by {
            if j < i {
                assert(!links(g.edges[j], g.edges[i].source, g.edges[i].target));
            } else {
                assert(!links(g.edges[i], g.edges[j].source, g.edges[j].target));
            }
        }
    } else {
        let k = g.edges.len() as int;
        assert(links(g1.edges[k], s, t));
        assert(has_pair(g1, s, t));
        assert forall|j: int| 0 <= j < g1.edges.len() && j != k implies !links(#[trigger] g1.edges[j], s, t) by {
            assert(g1.edges[j] == g.edges[j]);
        }
    }
}

/// Disconnecting a pair twice leaves no edge between them.
pub proof fn law_disconnect_twice(g: GraphView, s: Seq<char>, t: Seq<char>)
    ensures
        !has_pair(disconnect_spec(disconnect_spec(g, s, t), s, t), s, t),
        !has_pair(disconnect_spec(g, s, t), s, t),
{
    let d1 = disconnect_spec(g, s, t);
    let d2 = disconnect_spec(d1, s, t);
    if has_pair(d1, s, t) {
        let i = choose|i: int| 0 <= i < d1.edges.len() && links(#[trigger] d1.edges[i], s, t);
        g.edges.lemma_filter_pred(|e: EdgeView| keep_edge(e, s, t, true), i);
    }
    if has_pair(d2, s, t) {
        let i = choose|i: int| 0 <= i < d2.edges.len() && links(#[trigger] d2.edges[i], s, t);
        d1.edges.lemma_filter_pred(|e: EdgeView| keep_edge(e, s, t, true), i);
    }
}

/// Setting a node's position sets keys `x` and `y` of its metadata and keeps
/// every other key of every node's metadata as it was.
pub proof fn law_position_keeps_metadata(
    g: GraphView,
    id: Seq<char>,
    x: serde_json::Value,
    y: serde_json::Value,
    now: int,
    i: int,
    key: Seq<char>,
)
    requires
        0 <= i < g.nodes.len(),
        key != seq!['x'],
        key != seq!['y'],
    ensures
        position_spec(g, id, x, y, now).nodes[i].metadata.contains_key(key) == g.nodes[i].metadata.contains_key(key),
        g.nodes[i].metadata.contains_key(key) ==> position_spec(g, id, x, y, now).nodes[i].metadata[key]
            == g.nodes[i].metadata[key],
        g.nodes[i].id == id ==> position_spec(g, id, x, y, now).nodes[i].metadata[seq!['x']] == x
            && position_spec(g, id, x, y, now).nodes[i].metadata[seq!['y']] == y,
{
    assert(seq!['x'] != seq!['y']) by {
        assert(seq!['x'][0] != seq!['y'][0]);
    }
}

} // verus!
