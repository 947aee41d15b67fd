//! Core of a research-notes back end: a graph of nodes and edges kept under
//! its invariants, text extraction and chunking for embedding, the plan and
//! the all-or-nothing record of an ingest, fusion of full-text and vector
//! search hits, and the prompt of a retrieval-augmented chat.

pub mod error;
pub mod sources;
pub mod metadata;
pub mod graph;
pub mod store;
pub mod laws;
pub mod chunker;
pub mod parser;
pub mod ingest;
pub mod search;
pub mod embeddings;
pub mod llm;
pub mod chat;
pub mod workspace;
