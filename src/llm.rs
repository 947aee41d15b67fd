//! Messages of a chat with a language model, and where the model is reached.

use vstd::prelude::*;

verus! {

/// One turn of a chat: who speaks (`system`, `user`, `assistant`) and what.
pub struct ChatMessage {
    pub role: String,
    pub content: String,
}

pub struct MessageView {
    pub role: Seq<char>,
    pub content: Seq<char>,
}

impl View for ChatMessage {
    type V = MessageView;

    open spec fn view(&self) -> MessageView {
        MessageView { role: self.role@, content: self.content@ }
    }
}

/// The chat model used when none is named.
pub open spec fn default_chat_model() -> Seq<char> {
    "llama3"@
}

/// The model to ask: the one named, else the default.
pub fn model_or_default(model: Option<String>) -> (r: String)
    ensures
        r@ == match model {
            Some(m) => m@,
            None => default_chat_model(),
        },
{
    match model {
        Some(m) => m,
        None => String::from_str("llama3"),
    }
}

/// Address of the local chat service.
pub fn chat_endpoint() -> (r: String)
    ensures
        r@ == "http://localhost:11434/api/chat"@,
{
    String::from_str("http://localhost:11434/api/chat")
}

/// Address of the local completion service.
pub fn complete_endpoint() -> (r: String)
    ensures
        r@ == "http://localhost:11434/api/generate"@,
{
    String::from_str("http://localhost:11434/api/generate")
}

} // verus!
