//! Error kinds of the library, each with a message for display.

use vstd::prelude::*;

verus! {

/// What went wrong, tagged by kind.
#[derive(Debug)]
pub enum ResearchError {
    /// A request was malformed: unknown provider, missing key, empty query.
    Validation(String),
    /// Fetching a page failed.
    Fetch(String),
    /// An embedding or completion service failed.
    Provider(String),
    /// The store refused a write.
    Storage(String),
    /// Something looked up is absent.
    NotFound(String),
    /// A request would break an invariant: wrong vector dimension, duplicate id.
    Invariant(String),
}

impl ResearchError {
    /// The message carried by the error, for the command boundary.
    pub fn message(&self) -> (r: &String)
        ensures
            match self {
                ResearchError::Validation(m) => r == m,
                ResearchError::Fetch(m) => r == m,
                ResearchError::Provider(m) => r == m,
                ResearchError::Storage(m) => r == m,
                ResearchError::NotFound(m) => r == m,
                ResearchError::Invariant(m) => r == m,
            },
    {
        match self {
            ResearchError::Validation(m) => m,
            ResearchError::Fetch(m) => m,
            ResearchError::Provider(m) => m,
            ResearchError::Storage(m) => m,
            ResearchError::NotFound(m) => m,
            ResearchError::Invariant(m) => m,
        }
    }
}

} // verus!
