//! Retrieval-augmented chat: the context block, the system prompt and the
//! messages sent to the model.

use vstd::prelude::*;
use crate::llm::{ChatMessage, MessageView};

verus! {

/// A chat request: the user's message and the turns before it.
pub struct ChatRequest {
    pub message: String,
    pub history: Vec<ChatMessage>,
}

/// One retrieved passage: the title of its node and its text.
pub struct ContextPassage {
    pub title: String,
    pub content: String,
}

/// How one passage reads in the context block.
pub open spec fn passage_text(title: Seq<char>, content: Seq<char>) -> Seq<char> {
    "Title: "@ + title + "\nContent: "@ + content + "\n"@
}

pub open spec fn passage_separator() -> Seq<char> {
    "\n---\n"@
}

/// The context block: the passages in order, separated by `\n---\n`.
pub open spec fn context_text(ps: Seq<(Seq<char>, Seq<char>)>) -> Seq<char>
    decreases ps.len(),
{
    if ps.len() == 0 {
        Seq::empty()
    } else if ps.len() == 1 {
        passage_text(ps[0].0, ps[0].1)
    } else {
        context_text(ps.drop_last()) + passage_separator() + passage_text(ps.last().0, ps.last().1)
    }
}

pub open spec fn passage_views(ps: Seq<ContextPassage>) -> Seq<(Seq<char>, Seq<char>)> {
    ps.map_values(|p: ContextPassage| (p.title@, p.content@))
}

pub open spec fn prompt_head() -> Seq<char> {
    "You are a helpful research assistant. Answer the user's question based ONLY on the following context:\n\n"@
}

pub open spec fn prompt_tail() -> Seq<char> {
    "\n\nIf the answer is not in the context, say so."@
}

/// The system prompt around a context block.
pub open spec fn prompt_text(context: Seq<char>) -> Seq<char> {
    prompt_head() + context + prompt_tail()
}

/// The context block of the retrieved passages.
pub fn build_context(passages: &Vec<ContextPassage>) -> (r: String)
    ensures
        r@ == context_text(passage_views(passages@)),
{
    let ghost ps = passage_views(passages@);
    let mut out = String::new();
    let mut i: usize = 0;
    while i < passages.len()
        invariant
            i <= passages.len(),
            ps == passage_views(passages@),
            out@ == context_text(ps.take(i as int)),
        decreases passages.len() - i,
    {
        assert(ps.take(i + 1).drop_last() =~= ps.take(i as int));
        assert(ps.take(i + 1).last() == ps[i as int]);
        if i > 0 {
            out.append("\n---\n");
        }
        out.append("Title: ");
        out.append(passages[i].title.as_str());
        out.append("\nContent: ");
        out.append(passages[i].content.as_str());
        out.append("\n");
        if i == 0 {
            assert(out@ =~= passage_text(ps[0].0, ps[0].1));
        } else {
            assert(out@ =~= context_text(ps.take(i as int)) + passage_separator() + passage_text(
                ps[i as int].0,
                ps[i as int].1,
            ));
        }
        i = i + 1;
    }
    assert(ps.take(passages.len() as int) =~= ps);
    out
}

/// The system prompt that grounds the model in `context`.
pub fn system_prompt(context: &str) -> (r: String)
    ensures
        r@ == prompt_text(context@),
{
    let mut p = String::from_str(
        "You are a helpful research assistant. Answer the user's question based ONLY on the following context:\n\n",
    );
    p.append(context);
    p.append("\n\nIf the answer is not in the context, say so.");
    p
}

/// The messages of a chat turn: the system prompt over the passages, then the
/// history in order, then the user's message.
pub fn chat_messages(message: String, history: Vec<ChatMessage>, passages: &Vec<ContextPassage>) -> (r:
    Vec<ChatMessage>)
    ensures
        r.len() == history.len() + 2,
        r[0]@ == (MessageView {
            role: "system"@,
            content: prompt_text(context_text(passage_views(passages@))),
        }),
        forall|i: int| 0 <= i < history.len() ==> #[trigger] r[i + 1]@ == history[i]@,
        r[history.len() + 1]@ == (MessageView { role: "user"@, content: message@ }),
{
    let context = build_context(passages);
    let mut out: Vec<ChatMessage> = Vec::new();
    out.push(ChatMessage { role: String::from_str("system"), content: system_prompt(context.as_str()) });
    let mut rest = history;
    let ghost h = rest@;
    let mut i: usize = 0;
    while rest.len() > 0
        invariant
            i + rest.len() == h.len(),
            rest@ == h.skip(i as int),
            out.len() == i + 1,
            out[0]@ == (MessageView {
                role: "system"@,
                content: prompt_text(context_text(passage_views(passages@))),
            }),
            forall|j: int| 0 <= j < i ==> #[trigger] out[j + 1]@ == h[j]@,
        decreases rest.len(),
    {
        let m = rest.remove(0);
        assert(m == h[i as int]);
        assert(rest@ =~= h.skip(i + 1));
        out.push(m);
        i = i + 1;
    }
    out.push(ChatMessage { role: String::from_str("user"), content: message });
    out
}

} // verus!
