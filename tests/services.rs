use research_core::chat::{build_context, chat_messages, system_prompt, ContextPassage};
use research_core::embeddings::{default_provider, embedding_endpoint, select_provider, EmbeddingProvider};
use research_core::error::ResearchError;
use research_core::ingest::{allocate_node_id, commit_ingest, fresh_id, plan_ingest, record_ingest};
use research_core::llm::{chat_endpoint, complete_endpoint, model_or_default, ChatMessage};
use research_core::store::GraphStore;
use research_core::workspace::{join_path, DbState, Workspace};

fn passage(t: &str, c: &str) -> ContextPassage {
    ContextPassage { title: t.to_string(), content: c.to_string() }
}

#[test]
fn providers_are_selected() {
    match select_provider("ollama", None).unwrap() {
        EmbeddingProvider::Ollama { model } => assert_eq!(model, "nomic-embed-text"),
        _ => panic!("expected ollama"),
    }
    match select_provider("gemini", Some("k1".to_string())).unwrap() {
        EmbeddingProvider::Gemini { api_key } => assert_eq!(api_key, "k1"),
        _ => panic!("expected gemini"),
    }
    assert!(matches!(select_provider("gemini", None), Err(ResearchError::Validation(_))));
    assert!(matches!(select_provider("openai", None), Err(ResearchError::Validation(_))));
}

#[test]
fn endpoints_are_built() {
    assert_eq!(embedding_endpoint(&default_provider()), "http://localhost:11434/api/embeddings");
    let g = EmbeddingProvider::Gemini { api_key: "KEY".to_string() };
    assert_eq!(
        embedding_endpoint(&g),
        "https://generativelanguage.googleapis.com/v1beta/models/embedding-001:embedContent?key=KEY"
    );
    assert_eq!(chat_endpoint(), "http://localhost:11434/api/chat");
    assert_eq!(complete_endpoint(), "http://localhost:11434/api/generate");
    assert_eq!(model_or_default(None), "llama3");
    assert_eq!(model_or_default(Some("m".to_string())), "m");
}

#[test]
fn context_block_joins_passages() {
    assert_eq!(build_context(&vec![]), "");
    assert_eq!(
        build_context(&vec![passage("A", "x"), passage("B", "y")]),
        "Title: A\nContent: x\n\n---\nTitle: B\nContent: y\n"
    );
}

#[test]
fn chat_grounding() {
    let history = vec![ChatMessage { role: "assistant".to_string(), content: "hi".to_string() }];
    let msgs = chat_messages("Where?".to_string(), history, &vec![passage("Paris facts", "capital")]);
    assert_eq!(msgs.len(), 3);
    // A mock model that echoes the system prompt answers with the context.
    let reply = msgs[0].content.clone();
    assert_eq!(msgs[0].role, "system");
    assert!(reply.contains("Paris facts"));
    assert!(reply.starts_with("You are a helpful research assistant."));
    assert!(reply.ends_with("If the answer is not in the context, say so."));
    assert_eq!(msgs[1].content, "hi");
    assert_eq!(msgs[2].role, "user");
    assert_eq!(msgs[2].content, "Where?");
}

#[test]
fn system_prompt_wraps_context() {
    assert_eq!(
        system_prompt("C"),
        "You are a helpful research assistant. Answer the user's question based ONLY on the following context:\n\nC\n\nIf the answer is not in the context, say so."
    );
}

fn page() -> &'static str {
    "<html><head><title>France</title></head><body><p>The capital of France is Paris.</p></body></html>"
}

#[test]
fn ingest_and_retrieve_rows() {
    let mut store = GraphStore::new();
    let plan = plan_ingest("http://x".to_string(), page(), "ollama".to_string(), default_provider());
    assert_eq!(plan.title, "France");
    assert_eq!(plan.text, "The capital of France is Paris.\n");
    assert_eq!(plan.chunks, vec!["The capital of France is Paris.".to_string()]);
    let id = allocate_node_id(&store).unwrap();
    let batch = commit_ingest(&mut store, plan, id.clone(), vec![vec![0u8; 8]], 2).unwrap();
    assert_eq!(batch.node_id, id);
    assert!(batch.content.contains("Paris"));
    assert_eq!(batch.vectors.len(), 1);
    assert_eq!(batch.vectors[0].node_id, id);
    let node = store.get_node(&id).unwrap();
    assert_eq!(node.node_type, "source");
    assert_eq!(node.content_path, Some(format!("{}.md", id)));
    assert_eq!(node.metadata.get("chunk_count"), Some(&serde_json::Value::from(1usize)));
    assert_eq!(node.metadata.get("url"), Some(&serde_json::Value::from("http://x")));
}

#[test]
fn wrong_dimension_fails_without_writing() {
    let mut store = GraphStore::new();
    let plan = plan_ingest("http://x".to_string(), page(), "ollama".to_string(), default_provider());
    let r = record_ingest(&mut store, plan, "n1".to_string(), 7, vec![vec![0u8; 12]], 2);
    assert!(matches!(r, Err(ResearchError::Invariant(_))));
    assert!(store.nodes().is_empty());
    let plan = plan_ingest("http://x".to_string(), page(), "ollama".to_string(), default_provider());
    let r = record_ingest(&mut store, plan, "n1".to_string(), 7, vec![], 2);
    assert!(matches!(r, Err(ResearchError::Invariant(_))));
    assert!(store.nodes().is_empty());
}

#[test]
fn ingest_with_taken_id_is_storage_error() {
    let mut store = GraphStore::new();
    let plan = plan_ingest("u".to_string(), page(), "ollama".to_string(), default_provider());
    record_ingest(&mut store, plan, "n1".to_string(), 7, vec![vec![1u8; 4]], 1).unwrap();
    let plan = plan_ingest("u".to_string(), page(), "ollama".to_string(), default_provider());
    let r = record_ingest(&mut store, plan, "n1".to_string(), 8, vec![vec![1u8; 4]], 1);
    assert!(matches!(r, Err(ResearchError::Storage(_))));
    assert_eq!(store.nodes().len(), 1);
    assert_eq!(store.nodes()[0].created_at, 7);
}

#[test]
fn workspace_paths() {
    let ws = Workspace::at("/home/u");
    assert_eq!(ws.root, "/home/u/.research_data");
    assert_eq!(ws.artifacts, "/home/u/.research_data/artifacts");
    assert_eq!(ws.artifact_path("n.md"), "/home/u/.research_data/artifacts/n.md");
    assert_eq!(DbState::in_workspace(&ws).db_path, "/home/u/.research_data/research.db");
    assert_eq!(join_path("a", "b"), "a/b");
}

#[test]
fn workspace_lies_under_home() {
    if let Ok(ws) = Workspace::new() {
        assert!(ws.root.ends_with("/.research_data"));
        assert_eq!(ws.artifacts, format!("{}/artifacts", ws.root));
    }
}

#[test]
fn fresh_id_keeps_only_unused_ids() {
    let mut store = GraphStore::new();
    assert_eq!(fresh_id(&store, "n1".to_string()), Some("n1".to_string()));
    assert!(allocate_node_id(&store).is_some());
    let plan = plan_ingest("u".to_string(), page(), "ollama".to_string(), default_provider());
    record_ingest(&mut store, plan, "n1".to_string(), 7, vec![vec![1u8; 4]], 1).unwrap();
    assert_eq!(fresh_id(&store, "n1".to_string()), None);
    assert_eq!(fresh_id(&store, "n2".to_string()), Some("n2".to_string()));
}
