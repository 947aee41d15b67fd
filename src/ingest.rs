//! The ingest pipeline: paragraph packing, the plan of an ingest and the
//! all-or-nothing hand-over of its rows to the store.

use vstd::prelude::*;
use crate::chunker::{chunk_count, word_chunk, words_of, words_per_chunk};
use crate::embeddings::EmbeddingProvider;
use crate::error::ResearchError;
use crate::graph::{artifact_name, has_node, new_node, well_formed, GraphView};
use crate::metadata::{json_count, json_entries, json_text};
use crate::parser::{page_text, page_title};
use crate::sources::{new_id, now_millis};
use crate::store::{artifact_file_name, GraphStore};

verus! {

/// Paragraph separator of extracted text.
pub open spec fn paragraph_break() -> Seq<char> {
    seq!['\n', '\n']
}

/// Greedy packing of paragraphs: the chunks completed so far and the chunk
/// under construction. Each paragraph enters a chunk followed by a paragraph
/// break; a non-empty chunk is closed first when the paragraph and its break
/// would take it past `size` characters. Empty paragraphs add nothing.
pub open spec fn pack(ps: Seq<Seq<char>>, size: nat) -> (Seq<Seq<char>>, Seq<char>)
    decreases ps.len(),
{
    if ps.len() == 0 {
        (Seq::empty(), Seq::empty())
    } else {
        let (done, cur) = pack(ps.drop_last(), size);
        let p = ps.last();
        if p.len() == 0 {
            (done, cur)
        } else if cur.len() > 0 && cur.len() + p.len() + 2 > size {
            (done.push(cur), p + paragraph_break())
        } else {
            (done, cur + p + paragraph_break())
        }
    }
}

/// The chunks of the greedy packing, the last one included when non-empty.
pub open spec fn packed(ps: Seq<Seq<char>>, size: nat) -> Seq<Seq<char>> {
    let (done, cur) = pack(ps, size);
    if cur.len() > 0 {
        done.push(cur)
    } else {
        done
    }
}

/// A chunk is sound when it is not empty and either fits in `size`
/// characters or is a single paragraph of `ps` with its break.
pub open spec fn sound_chunk(c: Seq<char>, ps: Seq<Seq<char>>, size: nat) -> bool {
    &&& c.len() > 0
    &&& (c.len() <= size || exists|j: int|
        0 <= j < ps.len() && ps[j].len() > 0 && c == #[trigger] ps[j] + paragraph_break())
}

proof fn lemma_pack_sound(ps: Seq<Seq<char>>, size: nat)
    ensures
        forall|i: int|
            0 <= i < pack(ps, size).0.len() ==> sound_chunk(#[trigger] pack(ps, size).0[i], ps, size),
        pack(ps, size).1.len() == 0 || sound_chunk(pack(ps, size).1, ps, size),
    decreases ps.len(),
{
    if ps.len() > 0 {
        let pre = ps.drop_last();
        lemma_pack_sound(pre, size);
        let (done, cur) = pack(pre, size);
        let k = ps.len() - 1;
        assert forall|c: Seq<char>| sound_chunk(c, pre, size) implies sound_chunk(c, ps, size) by {
            if c.len() > size {
                let j = choose|j: int| 0 <= j < pre.len() && pre[j].len() > 0 && c == #[trigger] pre[j] + paragraph_break();
                assert(ps[j] == pre[j]);
            }
        }
        let p = ps.last();
        if p.len() > 0 {
            if cur.len() > 0 && cur.len() + p.len() + 2 > size {
                assert(ps[k] + paragraph_break() == p + paragraph_break());
            } else if cur.len() == 0 {
                assert(cur + p + paragraph_break() =~= ps[k] + paragraph_break());
            }
        }
    }
}

/// Every packed chunk is non-empty, and one longer than `size` characters
/// holds a single paragraph.
pub proof fn lemma_packed_sound(ps: Seq<Seq<char>>, size: nat)
    ensures
        forall|i: int| 0 <= i < packed(ps, size).len() ==> sound_chunk(#[trigger] packed(ps, size)[i], ps, size),
{
    lemma_pack_sound(ps, size);
}

/// The pieces of a text between paragraph breaks, the breaks matched from
/// the left without overlap; a text without one is a single piece.
pub open spec fn paragraphs_of(text: Seq<char>) -> Seq<Seq<char>>
    decreases text.len(),
{
    if text.len() < 2 {
        seq![text]
    } else if text[0] == '\n' && text[1] == '\n' {
        seq![Seq::empty()] + paragraphs_of(text.skip(2))
    } else {
        let rest = paragraphs_of(text.skip(1));
        rest.update(0, seq![text[0]] + rest[0])
    }
}

/// Relies on `str::split` with the pattern `"\n\n"`: the pieces of `text`
/// between non-overlapping occurrences of the separator, in order.
#[verifier::external_body]
fn split_paragraphs(text: &str) -> (r: Vec<String>)
    ensures
        r@.map_values(|p: String| p@) == paragraphs_of(text@),
{
    text.split("\n\n").map(String::from).collect()
}

/// Packs paragraphs into chunks of at most `size` characters where whole
/// paragraphs allow it, never splitting a paragraph.
pub fn pack_paragraphs(paragraphs: &Vec<String>, size: usize) -> (r: Vec<String>)
    ensures
        r@.map_values(|c: String| c@) == packed(
            paragraphs@.map_values(|p: String| p@),
            size as nat,
        ),
{
    let ghost ps = paragraphs@.map_values(|p: String| p@);
    let mut chunks: Vec<String> = Vec::new();
    let mut current = String::new();
    let mut i: usize = 0;
    proof {
        reveal_strlit("\n\n");
        assert(ps.take(0) =~= Seq::<Seq<char>>::empty());
        assert(chunks@.map_values(|c: String| c@) =~= Seq::<Seq<char>>::empty());
    }
    while i < paragraphs.len()
        invariant
            ps == paragraphs@.map_values(|p: String| p@),
            i <= paragraphs.len(),
            "\n\n"@ == paragraph_break(),
            (chunks@.map_values(|c: String| c@), current@) == pack(ps.take(i as int), size as nat),
        decreases paragraphs.len() - i,
    {
        let ghost before = chunks@.map_values(|c: String| c@);
        let ghost cur = current@;
        assert(ps.take(i + 1).drop_last() =~= ps.take(i as int));
        assert(ps.take(i + 1).last() == paragraphs@[i as int]@);
        let p = paragraphs[i].as_str();
        let cur_len = current.as_str().unicode_len();
        let p_len = p.unicode_len();
        if p_len == 0 {
        } else if cur_len > 0 && (cur_len > size || p_len > size - cur_len || 2 > size - cur_len - p_len) {
            chunks.push(current);
            assert(chunks@.map_values(|c: String| c@) =~= before.push(cur));
            current = String::new();
            current.append(p);
            current.append("\n\n");
            assert(current@ =~= p@ + paragraph_break());
        } else {
            current.append(p);
            current.append("\n\n");
            assert(current@ =~= cur + p@ + paragraph_break());
        }
        i = i + 1;
    }
    assert(ps.take(paragraphs.len() as int) =~= ps);
    if current.as_str().unicode_len() > 0 {
        let ghost before = chunks@.map_values(|c: String| c@);
        let ghost cur = current@;
        chunks.push(current);
        assert(chunks@.map_values(|c: String| c@) =~= before.push(cur));
    }
    chunks
}

/// Cuts `text` at its paragraph breaks and packs the paragraphs greedily into
/// chunks of at most `chunk_size` characters, breaks included, never
/// splitting a paragraph: no chunk is empty, and one that is longer holds a
/// single paragraph.
pub fn chunk_text(text: &str, chunk_size: usize) -> (r: Vec<String>)
    ensures
        r@.map_values(|c: String| c@) == packed(paragraphs_of(text@), chunk_size as nat),
        forall|i: int|
            0 <= i < r.len() ==> sound_chunk(#[trigger] r[i]@, paragraphs_of(text@), chunk_size as nat),
{
    let paragraphs = split_paragraphs(text);
    let r = pack_paragraphs(&paragraphs, chunk_size);
    proof {
        lemma_packed_sound(paragraphs_of(text@), chunk_size as nat);
        assert forall|i: int| 0 <= i < r.len() implies sound_chunk(
            #[trigger] r[i]@,
            paragraphs_of(text@),
            chunk_size as nat,
        ) by {
            assert(r@.map_values(|c: String| c@)[i] == r[i]@);
        }
    }
    r
}

/// Token budget of one chunk of an ingested page.
pub const CHUNK_TOKENS: usize = 500;

/// What an ingest has computed before any embedding: where the page came
/// from, the provider that embeds it, its title, its text and its chunks.
pub struct IngestPlan {
    pub url: String,
    pub provider_name: String,
    pub provider: EmbeddingProvider,
    pub title: String,
    pub text: String,
    pub chunks: Vec<String>,
}

/// One row of the vector index: the node a chunk belongs to and the chunk's
/// embedding as little-endian `f32` bytes.
pub struct VectorRow {
    pub node_id: String,
    pub embedding: Vec<u8>,
}

/// The index rows of one ingested node: one full-text row for the whole
/// text and one vector row per chunk.
pub struct IndexBatch {
    pub node_id: String,
    pub title: String,
    pub content: String,
    pub vectors: Vec<VectorRow>,
}

/// Plans the ingest of a fetched page: its title and readable text, cut
/// into chunks of whole words.
pub fn plan_ingest(url: String, html: &str, provider_name: String, provider: EmbeddingProvider) -> (r:
    IngestPlan)
    ensures
        r.url == url,
        r.provider_name == provider_name,
        r.provider == provider,
        r.title@ == page_title(html@),
        r.text@ == page_text(html@),
        r.chunks.len() == chunk_count(words_of(r.text@).len(), words_per_chunk(CHUNK_TOKENS as nat)),
        forall|j: int|
            0 <= j < r.chunks.len() ==> #[trigger] r.chunks[j]@ == word_chunk(
                words_of(r.text@),
                words_per_chunk(CHUNK_TOKENS as nat),
                j,
            ),
{
    let title = crate::parser::extract_title(html);
    let text = crate::parser::parse_html(html);
    let chunks = crate::chunker::chunk_text(text.as_str(), CHUNK_TOKENS);
    IngestPlan { url, provider_name, provider, title, text, chunks }
}

/// Whether every embedding has `dim` four-byte components.
pub open spec fn dims_agree(embeddings: Seq<Vec<u8>>, dim: nat) -> bool {
    forall|i: int| 0 <= i < embeddings.len() ==> #[trigger] embeddings[i].len() == 4 * dim
}

/// The metadata of an ingested node.
pub open spec fn ingest_metadata(url: Seq<char>, chunks: usize, provider: Seq<char>) -> Map<
    Seq<char>,
    serde_json::Value,
> {
    Map::empty().insert("url"@, json_text(url)).insert("chunk_count"@, json_count(chunks)).insert(
        "provider"@,
        json_text(provider),
    ).insert("chunking"@, json_text("words"@))
}

/// Records an ingested page whose chunks were embedded: adds its node, a
/// source created at `now` whose content is its artifact file, and returns
/// its index rows. Fails with `Invariant`, the graph unchanged, when the
/// embeddings do not match the chunks one for one or one of them does not
/// have `dim` components; with `Storage`, the graph unchanged, when the id
/// is taken.
pub fn record_ingest(
    store: &mut GraphStore,
    plan: IngestPlan,
    node_id: String,
    now: i64,
    embeddings: Vec<Vec<u8>>,
    dim: usize,
) -> (r: Result<IndexBatch, ResearchError>)
    requires
        well_formed(old(store)@),
    ensures
        well_formed(final(store)@),
        r matches Err(e) ==> final(store)@ == old(store)@,
        !(embeddings.len() == plan.chunks.len() && dims_agree(embeddings@, dim as nat)) ==> r matches Err(
            ResearchError::Invariant(_),
        ),
        embeddings.len() == plan.chunks.len() && dims_agree(embeddings@, dim as nat) ==> (r is Ok
            <==> !has_node(old(store)@, node_id@)),
        r matches Err(ResearchError::Storage(_)) ==> has_node(old(store)@, node_id@),
        r matches Ok(b) ==> {
            &&& final(store)@ == (GraphView {
                nodes: old(store)@.nodes.push(
                    new_node(
                        node_id@,
                        "source"@,
                        plan.title@,
                        Some(artifact_name(node_id@)),
                        ingest_metadata(plan.url@, plan.chunks.len(), plan.provider_name@),
                        now as int,
                    ),
                ),
                edges: old(store)@.edges,
            })
            &&& b.node_id == node_id
            &&& b.title == plan.title
            &&& b.content == plan.text
            &&& b.vectors.len() == plan.chunks.len()
            &&& forall|i: int|
                0 <= i < b.vectors.len() ==> #[trigger] b.vectors[i].node_id == node_id
                    && b.vectors[i].embedding == embeddings[i] && b.vectors[i].embedding.len() == 4 * dim
        },
{
    if embeddings.len() != plan.chunks.len() {
        return Err(ResearchError::Invariant(String::from_str("one embedding is needed per chunk")));
    }
    let mut k: usize = 0;
    let ghost g = store@;
    while k < embeddings.len()
        invariant
            store@ == g,
            g == old(store)@,
            well_formed(g),
            k <= embeddings.len(),
            forall|i: int| 0 <= i < k ==> #[trigger] embeddings@[i].len() == 4 * dim,
        decreases embeddings.len() - k,
    {
        let n = embeddings[k].len();
        if n % 4 != 0 || n / 4 != dim {
            return Err(ResearchError::Invariant(String::from_str("vector dimension mismatch")));
        }
        k = k + 1;
    }
    let IngestPlan { url, provider_name, provider: _, title, text, chunks } = plan;
    let mut meta = serde_json::Map::new();
    proof {
        reveal_strlit("url");
        reveal_strlit("chunk_count");
        reveal_strlit("provider");
        reveal_strlit("chunking");
        reveal_strlit("words");
    }
    meta.insert(String::from_str("url"), serde_json::Value::from(url));
    meta.insert(String::from_str("chunk_count"), serde_json::Value::from(chunks.len()));
    meta.insert(String::from_str("provider"), serde_json::Value::from(provider_name));
    meta.insert(String::from_str("chunking"), serde_json::Value::from(String::from_str("words")));
    assert(json_entries(meta) =~= ingest_metadata(url@, chunks.len(), provider_name@));
    let path = artifact_file_name(node_id.as_str());
    proof {
        reveal_strlit("source");
    }
    let key = node_id.clone();
    match store.insert_node(node_id, String::from_str("source"), title.clone(), Some(path), meta, now) {
        Err(e) => Err(e),
        Ok(()) => {
            let mut vectors: Vec<VectorRow> = Vec::new();
            let mut rest = embeddings;
            let ghost all = rest@;
            let mut i: usize = 0;
            while rest.len() > 0
                invariant
                    i + rest.len() == all.len(),
                    all.len() <= usize::MAX,
                    rest@ == all.skip(i as int),
                    vectors.len() == i,
                    forall|j: int| 0 <= j < all.len() ==> #[trigger] all[j].len() == 4 * dim,
                    forall|j: int|
                        0 <= j < i ==> #[trigger] vectors[j].node_id == key && vectors[j].embedding
                            == all[j],
                decreases rest.len(),
            {
                let e = rest.remove(0);
                assert(e == all[i as int]);
                assert(rest@ =~= all.skip(i + 1));
                vectors.push(VectorRow { node_id: key.clone(), embedding: e });
                i = i + 1;
            }
            Ok(IndexBatch { node_id: key, title, content: text, vectors })
        },
    }
}

/// `id` when no node of `store` has it, else `None`.
pub fn fresh_id(store: &GraphStore, id: String) -> (r: Option<String>)
    ensures
        r == (if has_node(store@, id@) {
            None::<String>
        } else {
            Some(id)
        }),
{
    match store.get_node(id.as_str()) {
        Some(_) => None,
        None => Some(id),
    }
}

/// Draws a random node id and keeps it when it is fresh. `None` only when
/// the drawn id is taken, so never on an empty store.
pub fn allocate_node_id(store: &GraphStore) -> (r: Option<String>)
    ensures
        r matches Some(id) ==> !has_node(store@, id@),
        r is None ==> store@.nodes.len() > 0,
{
    fresh_id(store, new_id())
}

/// Records an ingested page as `record_ingest` does, created now.
pub fn commit_ingest(
    store: &mut GraphStore,
    plan: IngestPlan,
    node_id: String,
    embeddings: Vec<Vec<u8>>,
    dim: usize,
) -> (r: Result<IndexBatch, ResearchError>)
    requires
        well_formed(old(store)@),
    ensures
        well_formed(final(store)@),
        r matches Err(e) ==> final(store)@ == old(store)@,
        !(embeddings.len() == plan.chunks.len() && dims_agree(embeddings@, dim as nat)) ==> r matches Err(
            ResearchError::Invariant(_),
        ),
        embeddings.len() == plan.chunks.len() && dims_agree(embeddings@, dim as nat) ==> (r is Ok
            <==> !has_node(old(store)@, node_id@)),
        r matches Ok(b) ==> {
            &&& has_node(final(store)@, node_id@)
            &&& exists|now: i64|
                final(store)@ == (GraphView {
                    nodes: old(store)@.nodes.push(
                        new_node(
                            node_id@,
                            "source"@,
                            plan.title@,
                            Some(artifact_name(node_id@)),
                            ingest_metadata(plan.url@, plan.chunks.len(), plan.provider_name@),
                            now as int,
                        ),
                    ),
                    edges: old(store)@.edges,
                })
            &&& b.node_id == node_id
            &&& b.title == plan.title
            &&& b.content == plan.text
            &&& b.vectors.len() == plan.chunks.len()
            &&& forall|i: int|
                0 <= i < b.vectors.len() ==> #[trigger] b.vectors[i].node_id == node_id
                    && b.vectors[i].embedding == embeddings[i] && b.vectors[i].embedding.len() == 4 * dim
        },
{
    let now = now_millis();
    let ghost old_len = store@.nodes.len();
    let r = record_ingest(store, plan, node_id, now, embeddings, dim);
    proof {
        if r is Ok {
            assert(store@.nodes[old_len as int].id == node_id@);
        }
    }
    r
}

} // verus!
