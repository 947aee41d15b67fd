use research_core::chunker::{chunk_text, chunk_words};
use research_core::ingest;

fn strings(v: &[&str]) -> Vec<String> {
    v.iter().map(|s| s.to_string()).collect()
}

#[test]
fn words_are_grouped_by_three_quarters_of_the_budget() {
    assert_eq!(chunk_text("a b c d e", 4), strings(&["a b c", "d e"]));
}

#[test]
fn whitespace_runs_do_not_make_words() {
    assert_eq!(chunk_text("  one\ttwo \n three  ", 4), strings(&["one two three"]));
}

#[test]
fn tiny_budget_gives_one_word_per_chunk() {
    assert_eq!(chunk_text("x y", 0), strings(&["x", "y"]));
    assert_eq!(chunk_text("x y", 1), strings(&["x", "y"]));
}

#[test]
fn empty_text_gives_no_word_chunks() {
    assert!(chunk_text("", 500).is_empty());
    assert!(chunk_text("   ", 500).is_empty());
}

#[test]
fn exact_multiple_leaves_no_short_chunk() {
    assert_eq!(chunk_text("a b c d e f", 4), strings(&["a b c", "d e f"]));
}

#[test]
fn chunk_words_joins_with_single_spaces() {
    let words = strings(&["alpha", "beta", "gamma"]);
    assert_eq!(chunk_words(&words, 2), strings(&["alpha beta", "gamma"]));
}

#[test]
fn paragraphs_are_packed_greedily() {
    // Breaks count toward the size: "aa\n\nbb\n\n" would be eight characters.
    assert_eq!(ingest::chunk_text("aa\n\nbb\n\ncc", 6), strings(&["aa\n\n", "bb\n\n", "cc\n\n"]));
    assert_eq!(ingest::chunk_text("aa\n\nbb\n\ncc", 8), strings(&["aa\n\nbb\n\n", "cc\n\n"]));
}

#[test]
fn oversized_paragraph_is_not_split() {
    assert_eq!(ingest::chunk_text("abcdefgh\n\nij", 4), strings(&["abcdefgh\n\n", "ij\n\n"]));
    assert_eq!(ingest::chunk_text("ab", 1), strings(&["ab\n\n"]));
}

#[test]
fn empty_text_gives_no_paragraph_chunks() {
    assert!(ingest::chunk_text("", 1000).is_empty());
    assert_eq!(ingest::chunk_text("a\n\n\n\nb", 1000), strings(&["a\n\nb\n\n"]));
}

#[test]
fn paragraph_sizes_count_characters() {
    // Four characters of two bytes each, with their break, fit six characters.
    assert_eq!(ingest::chunk_text("éééé\n\nü", 6), strings(&["éééé\n\n", "ü\n\n"]));
    assert_eq!(ingest::chunk_text("éé\n\nü", 7), strings(&["éé\n\nü\n\n"]));
}
