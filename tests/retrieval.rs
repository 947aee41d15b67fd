use research_core::error::ResearchError;
use research_core::search::{check_query, fuse_results, parse_mode, score_key_of, SearchMode, SearchResult};

fn hit(id: &str, score: f32, snippet: &str) -> SearchResult {
    SearchResult { id: id.to_string(), title: format!("title {}", id), score_bits: score.to_bits(), snippet: snippet.to_string() }
}

fn ids(v: &[SearchResult]) -> Vec<String> {
    v.iter().map(|h| h.id.clone()).collect()
}

#[test]
fn score_keys_follow_float_order() {
    let xs = [f32::NEG_INFINITY, -3.5, -1.0, 0.0, 0.25, 1.0, 7.0, f32::INFINITY];
    for w in xs.windows(2) {
        assert!(score_key_of(w[0].to_bits()) < score_key_of(w[1].to_bits()));
    }
    assert_eq!(score_key_of((-0.0f32).to_bits()), score_key_of(0.0f32.to_bits()));
    assert!(score_key_of(f32::NAN.to_bits()) < score_key_of(f32::NEG_INFINITY.to_bits()));
    assert_eq!(score_key_of(1.0f32.to_bits()), 0x3f80_0000);
}

#[test]
fn fuzzy_hits_rank_by_score_descending() {
    let fuzzy = vec![hit("a", -2.0, "<b>x</b>"), hit("b", -1.0, "y"), hit("c", -3.0, "z")];
    let r = fuse_results(SearchMode::Fuzzy, &fuzzy, &vec![hit("d", 0.9, "")]);
    assert_eq!(ids(&r), vec!["b", "a", "c"]);
    assert_eq!(r[1].snippet, "<b>x</b>");
}

#[test]
fn semantic_hit_inherits_snippet_and_replaces_score() {
    let fuzzy = vec![hit("a", -2.0, "<b>Paris</b>")];
    let semantic = vec![hit("a", 0.75, "ignored"), hit("b", 0.5, "ignored")];
    let r = fuse_results(SearchMode::Hybrid, &fuzzy, &semantic);
    assert_eq!(ids(&r), vec!["a", "b"]);
    assert_eq!(r[0].snippet, "<b>Paris</b>");
    assert_eq!(f32::from_bits(r[0].score_bits), 0.75);
    assert_eq!(r[1].snippet, "");
}

#[test]
fn later_chunk_of_same_node_replaces_earlier() {
    let semantic = vec![hit("a", 0.9, ""), hit("a", 0.4, ""), hit("b", 0.6, "")];
    let r = fuse_results(SearchMode::Semantic, &vec![], &semantic);
    assert_eq!(ids(&r), vec!["b", "a"]);
    assert_eq!(f32::from_bits(r[1].score_bits), 0.4);
}

#[test]
fn equal_scores_keep_first_appearance_order() {
    let semantic = vec![hit("a", 0.5, ""), hit("b", 0.5, ""), hit("c", 0.5, "")];
    let r = fuse_results(SearchMode::Semantic, &vec![], &semantic);
    assert_eq!(ids(&r), vec!["a", "b", "c"]);
}

#[test]
fn hybrid_covers_fuzzy_and_semantic() {
    let fuzzy = vec![hit("a", -1.0, "s"), hit("b", -4.0, "t")];
    let semantic = vec![hit("c", 0.2, ""), hit("a", 0.3, "")];
    let mut f = ids(&fuse_results(SearchMode::Fuzzy, &fuzzy, &semantic));
    let mut s = ids(&fuse_results(SearchMode::Semantic, &fuzzy, &semantic));
    let mut h = ids(&fuse_results(SearchMode::Hybrid, &fuzzy, &semantic));
    h.sort();
    f.append(&mut s);
    f.sort();
    f.dedup();
    assert_eq!(h, f);
}

#[test]
fn one_hot_semantic_query_ranks_matching_document_first() {
    // Cosine distances of a one-hot query against two one-hot documents.
    let doc_a = [1.0f32, 0.0];
    let doc_b = [0.0f32, 1.0];
    let query = [0.0f32, 1.0];
    let dist = |d: &[f32; 2]| 1.0 - (d[0] * query[0] + d[1] * query[1]);
    let semantic = vec![hit("doc-b", 1.0 - dist(&doc_b), ""), hit("doc-a", 1.0 - dist(&doc_a), "")];
    let r = fuse_results(SearchMode::Semantic, &vec![], &semantic);
    assert_eq!(r[0].id, "doc-b");
}

#[test]
fn modes_are_read() {
    assert_eq!(parse_mode("fuzzy").unwrap(), SearchMode::Fuzzy);
    assert_eq!(parse_mode("semantic").unwrap(), SearchMode::Semantic);
    assert_eq!(parse_mode("hybrid").unwrap(), SearchMode::Hybrid);
    assert!(matches!(parse_mode("exact"), Err(ResearchError::Validation(_))));
}

#[test]
fn empty_query_is_rejected() {
    assert!(matches!(check_query("", "fuzzy"), Err(ResearchError::Validation(_))));
    assert!(matches!(check_query("paris", "other"), Err(ResearchError::Validation(_))));
    assert_eq!(check_query("paris", "hybrid").unwrap(), SearchMode::Hybrid);
}
