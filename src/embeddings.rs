//! Embedding providers and where their services are reached.

use vstd::prelude::*;
use crate::error::ResearchError;

verus! {

/// The service that turns text into vectors, with what it needs.
pub enum EmbeddingProvider {
    Ollama { model: String },
    Gemini { api_key: String },
}

/// The embedding model used when none is named.
pub open spec fn default_embedding_model() -> Seq<char> {
    "nomic-embed-text"@
}

pub open spec fn ollama_embeddings_url() -> Seq<char> {
    "http://localhost:11434/api/embeddings"@
}

pub open spec fn gemini_embeddings_url_prefix() -> Seq<char> {
    "https://generativelanguage.googleapis.com/v1beta/models/embedding-001:embedContent?key="@
}

/// The provider of the default embedding model on the local service.
pub fn default_provider() -> (r: EmbeddingProvider)
    ensures
        r matches EmbeddingProvider::Ollama { model } && model@ == default_embedding_model(),
{
    EmbeddingProvider::Ollama { model: String::from_str("nomic-embed-text") }
}

/// Picks the provider named `provider`: `ollama` with the default model, or
/// `gemini` with the given key. A missing key for `gemini`, or another name,
/// is a `Validation` error.
pub fn select_provider(provider: &str, api_key: Option<String>) -> (r: Result<
    EmbeddingProvider,
    ResearchError,
>)
    ensures
        provider@ == "ollama"@ ==> (r matches Ok(EmbeddingProvider::Ollama { model }) && model@
            == default_embedding_model()),
        provider@ == "gemini"@ ==> match api_key {
            Some(k) => (r matches Ok(EmbeddingProvider::Gemini { api_key: key }) && key == k),
            None => r matches Err(ResearchError::Validation(_)),
        },
        provider@ != "ollama"@ && provider@ != "gemini"@ ==> r matches Err(
            ResearchError::Validation(_),
        ),
{
    proof {
        reveal_strlit("ollama");
        reveal_strlit("gemini");
        assert("ollama"@[0] != "gemini"@[0]);
    }
    let name = String::from_str(provider);
    if name == String::from_str("ollama") {
        Ok(default_provider())
    } else if name == String::from_str("gemini") {
        match api_key {
            Some(k) => Ok(EmbeddingProvider::Gemini { api_key: k }),
            None => Err(ResearchError::Validation(String::from_str("API key required for Gemini"))),
        }
    } else {
        Err(ResearchError::Validation(String::from_str("Invalid provider")))
    }
}

/// The address that embedding requests for `provider` go to.
pub fn embedding_endpoint(provider: &EmbeddingProvider) -> (r: String)
    ensures
        r@ == match provider {
            EmbeddingProvider::Ollama { .. } => ollama_embeddings_url(),
            EmbeddingProvider::Gemini { api_key } => gemini_embeddings_url_prefix() + api_key@,
        },
{
    match provider {
        EmbeddingProvider::Ollama { .. } => String::from_str("http://localhost:11434/api/embeddings"),
        EmbeddingProvider::Gemini { api_key } => {
            let mut url = String::from_str(
                "https://generativelanguage.googleapis.com/v1beta/models/embedding-001:embedContent?key=",
            );
            url.append(api_key.as_str());
            url
        },
    }
}

} // verus!
