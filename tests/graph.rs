use research_core::metadata::read_metadata;
use research_core::error::ResearchError;
use research_core::store::{artifact_file_name, GraphStore};

fn obj(pairs: &[(&str, &str)]) -> serde_json::Map<String, serde_json::Value> {
    let mut m = serde_json::Map::new();
    for (k, v) in pairs {
        m.insert(k.to_string(), serde_json::Value::from(v.to_string()));
    }
    m
}

fn pair_count(store: &GraphStore, s: &str, t: &str) -> usize {
    store.edges().iter().filter(|e| e.source == s && e.target == t).count()
}

#[test]
fn round_trip_node() {
    let mut store = GraphStore::new();
    let x = store.create_node("note".to_string(), "T".to_string(), None).unwrap();
    store.save_node_content(&x).unwrap();
    let node = store.get_node(&x).unwrap();
    assert_eq!(node.content_path, Some(format!("{}.md", x)));
    assert_eq!(node.node_type, "note");
    assert_eq!(node.title, "T");
    assert!(node.metadata.is_empty());
    assert!(node.updated_at >= node.created_at);
}

#[test]
fn artifact_file_is_named_by_id() {
    assert_eq!(artifact_file_name("abc"), "abc.md");
}

#[test]
fn cascade_delete() {
    let mut store = GraphStore::new();
    let a = store.create_node("note".to_string(), "A".to_string(), None).unwrap();
    let b = store.create_node("note".to_string(), "B".to_string(), None).unwrap();
    store.connect_nodes(a.clone(), b.clone(), None).unwrap();
    assert_eq!(store.edges().len(), 1);
    assert_eq!(store.delete_node(&a), None);
    assert!(store.edges().is_empty());
    assert!(store.get_node(&a).is_none());
    assert_eq!(store.nodes().len(), 1);
    assert_eq!(store.nodes()[0].id, b);
}

#[test]
fn delete_returns_content_path_and_is_idempotent() {
    let mut store = GraphStore::new();
    let a = store.create_node("note".to_string(), "A".to_string(), None).unwrap();
    store.set_content(&a, 5).unwrap();
    assert_eq!(store.delete_node(&a), Some(format!("{}.md", a)));
    assert_eq!(store.delete_node(&a), None);
    assert!(store.nodes().is_empty());
}

#[test]
fn idempotent_connect() {
    let mut store = GraphStore::new();
    let a = store.create_node("note".to_string(), "A".to_string(), None).unwrap();
    let b = store.create_node("note".to_string(), "B".to_string(), None).unwrap();
    store.connect_nodes(a.clone(), b.clone(), None).unwrap();
    store.connect_nodes(a.clone(), b.clone(), Some("cites".to_string())).unwrap();
    assert_eq!(store.edges().len(), 1);
    assert_eq!(store.edges()[0].label, "related");
}

#[test]
fn connect_keeps_given_label_and_direction() {
    let mut store = GraphStore::new();
    let a = store.create_node("note".to_string(), "A".to_string(), None).unwrap();
    let b = store.create_node("note".to_string(), "B".to_string(), None).unwrap();
    store.connect_nodes(b.clone(), a.clone(), Some("cites".to_string())).unwrap();
    store.connect_nodes(a.clone(), b.clone(), None).unwrap();
    assert_eq!(store.edges().len(), 2);
    assert_eq!(pair_count(&store, &b, &a), 1);
    assert_eq!(store.edges()[0].label, "cites");
}

#[test]
fn disconnect_twice_leaves_none() {
    let mut store = GraphStore::new();
    let a = store.create_node("note".to_string(), "A".to_string(), None).unwrap();
    let b = store.create_node("note".to_string(), "B".to_string(), None).unwrap();
    store.connect_nodes(a.clone(), b.clone(), None).unwrap();
    store.disconnect_nodes(&a, &b);
    store.disconnect_nodes(&a, &b);
    assert_eq!(pair_count(&store, &a, &b), 0);
    assert_eq!(store.nodes().len(), 2);
}

#[test]
fn connect_to_missing_node_is_storage_error() {
    let mut store = GraphStore::new();
    let a = store.create_node("note".to_string(), "A".to_string(), None).unwrap();
    let r = store.connect_nodes(a.clone(), "missing".to_string(), None);
    assert!(matches!(r, Err(ResearchError::Storage(_))));
    assert!(store.edges().is_empty());
}

#[test]
fn duplicate_edge_id_is_invariant_error() {
    let mut store = GraphStore::new();
    let a = store.create_node("note".to_string(), "A".to_string(), None).unwrap();
    let b = store.create_node("note".to_string(), "B".to_string(), None).unwrap();
    store.connect(a.clone(), b.clone(), "related".to_string(), "e1".to_string(), 1).unwrap();
    let r = store.connect(b.clone(), a.clone(), "related".to_string(), "e1".to_string(), 2);
    assert!(matches!(r, Err(ResearchError::Invariant(_))));
    assert_eq!(store.edges().len(), 1);
    assert_eq!(store.edges()[0].created_at, 1);
}

#[test]
fn duplicate_node_id_is_storage_error() {
    let mut store = GraphStore::new();
    store.insert_node("n".to_string(), "note".to_string(), "A".to_string(), None, obj(&[]), 3).unwrap();
    let r = store.insert_node("n".to_string(), "note".to_string(), "B".to_string(), None, obj(&[]), 4);
    assert!(matches!(r, Err(ResearchError::Storage(_))));
    assert_eq!(store.get_node("n").unwrap().title, "A");
}

#[test]
fn stamps_never_go_back() {
    let mut store = GraphStore::new();
    store.insert_node("n".to_string(), "note".to_string(), "A".to_string(), None, obj(&[]), 100).unwrap();
    store.set_content("n", 50).unwrap();
    let n = store.get_node("n").unwrap();
    assert_eq!(n.created_at, 100);
    assert_eq!(n.updated_at, 100);
    store.set_content("n", 170).unwrap();
    assert_eq!(store.get_node("n").unwrap().updated_at, 170);
}

#[test]
fn saving_content_of_missing_node_is_not_found() {
    let mut store = GraphStore::new();
    assert!(matches!(store.save_node_content("nope"), Err(ResearchError::NotFound(_))));
    assert!(matches!(store.set_content("nope", 1), Err(ResearchError::NotFound(_))));
}

#[test]
fn position_keeps_other_metadata() {
    let mut store = GraphStore::new();
    let id = store
        .create_node("note".to_string(), "A".to_string(), Some(obj(&[("color", "red"), ("x", "old")])))
        .unwrap();
    store
        .update_node_position(&id, serde_json::Value::from(1.5f32), serde_json::Value::from(-2.0f32))
        .unwrap();
    let n = store.get_node(&id).unwrap();
    assert_eq!(n.metadata.get("color"), Some(&serde_json::Value::from("red")));
    assert_eq!(n.metadata.get("x"), Some(&serde_json::Value::from(1.5f32)));
    assert_eq!(n.metadata.get("y"), Some(&serde_json::Value::from(-2.0f32)));
    assert_eq!(n.metadata.len(), 3);
}

#[test]
fn position_of_missing_node_is_not_found() {
    let mut store = GraphStore::new();
    let r = store.set_position("nope", serde_json::Value::from(1), serde_json::Value::from(2), 9);
    assert!(matches!(r, Err(ResearchError::NotFound(_))));
}

#[test]
fn created_node_has_fresh_distinct_ids() {
    let mut store = GraphStore::new();
    let a = store.create_node("note".to_string(), "A".to_string(), None).unwrap();
    let b = store.create_node("note".to_string(), "B".to_string(), None).unwrap();
    assert_ne!(a, b);
    assert_eq!(a.len(), 36);
    let n = store.get_node(&a).unwrap();
    assert_eq!(n.created_at, n.updated_at);
}

#[test]
fn error_message_is_carried() {
    let e = ResearchError::Validation("bad".to_string());
    assert_eq!(e.message(), "bad");
}

#[test]
fn stored_metadata_is_read_or_empty() {
    let m = read_metadata(Some("{\"x\": 1, \"tag\": \"a\"}"));
    assert_eq!(m.len(), 2);
    assert_eq!(m.get("tag"), Some(&serde_json::Value::from("a")));
    assert!(read_metadata(Some("not json")).is_empty());
    assert!(read_metadata(Some("[1, 2]")).is_empty());
    assert!(read_metadata(None).is_empty());
}
