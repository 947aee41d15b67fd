//! Readable text and title of an HTML page.

use vstd::prelude::*;
use crate::chunker::{is_white_space, join_words};

verus! {

/// Elements whose text makes up the readable body of a page.
pub open spec fn body_selector() -> Seq<char> {
    "body p, body h1, body h2, body h3, body h4, body h5, body h6, body li, body article"@
}

/// For each element of the parsed page `html` that `selector` selects, in
/// the order the parser inserted them into its tree, its text nodes; `None`
/// when the selector does not parse.
pub uninterp spec fn selected_texts(html: Seq<char>, selector: Seq<char>) -> Option<Seq<Seq<Seq<char>>>>;

pub open spec fn all_white(s: Seq<char>) -> bool {
    forall|i: int| 0 <= i < s.len() ==> is_white_space(#[trigger] s[i])
}

pub open spec fn nested_views(v: Seq<Vec<String>>) -> Seq<Seq<Seq<char>>> {
    v.map_values(|inner: Vec<String>| inner@.map_values(|s: String| s@))
}

/// Relies on `scraper::Html::parse_document`, `scraper::Selector::parse`,
/// `Html::select` and `ElementRef::text`: parses the page, then lists the
/// text nodes of each selected element, in the order of the parsed tree.
#[verifier::external_body]
fn select_texts(html: &str, selector: &str) -> (r: Option<Vec<Vec<String>>>)
    ensures
        match r {
            Some(v) => selected_texts(html@, selector@) == Some(nested_views(v@)),
            None => selected_texts(html@, selector@) is None,
        },
{
    let document = scraper::Html::parse_document(html);
    let sel = scraper::Selector::parse(selector).ok()?;
    Some(document.select(&sel).map(|e| e.text().map(String::from).collect()).collect())
}

/// Relies on `str::trim`: the text is empty once leading and trailing
/// `White_Space` characters are removed.
#[verifier::external_body]
fn is_blank(s: &str) -> (r: bool)
    ensures
        r == (forall|i: int| 0 <= i < s@.len() ==> is_white_space(#[trigger] s@[i])),
{
    s.trim().is_empty()
}

/// The pieces of text run together.
pub open spec fn concat_pieces(ps: Seq<Seq<char>>) -> Seq<char>
    decreases ps.len(),
{
    if ps.len() == 0 {
        Seq::empty()
    } else {
        concat_pieces(ps.drop_last()) + ps.last()
    }
}

/// The lines of readable text: each element's text nodes joined by spaces,
/// blank ones skipped, each followed by a line break.
pub open spec fn body_lines(els: Seq<Seq<Seq<char>>>) -> Seq<char>
    decreases els.len(),
{
    if els.len() == 0 {
        Seq::empty()
    } else if all_white(join_words(els.last())) {
        body_lines(els.drop_last())
    } else {
        body_lines(els.drop_last()) + join_words(els.last()) + "\n"@
    }
}

/// The readable text of a page: the lines of its body elements, or, when
/// there are none, the text nodes of its `<body>` joined by spaces.
pub open spec fn page_text(html: Seq<char>) -> Seq<char> {
    let lines = match selected_texts(html, body_selector()) {
        Some(els) => body_lines(els),
        None => Seq::empty(),
    };
    if lines.len() > 0 {
        lines
    } else {
        match selected_texts(html, "body"@) {
            Some(b) => if b.len() > 0 {
                join_words(b[0])
            } else {
                lines
            },
            None => lines,
        }
    }
}

/// The title of a page: the text of its first `<title>`, else `Untitled`.
pub open spec fn page_title(html: Seq<char>) -> Seq<char> {
    match selected_texts(html, "title"@) {
        Some(t) => if t.len() > 0 {
            concat_pieces(t[0])
        } else {
            "Untitled"@
        },
        None => "Untitled"@,
    }
}

/// Joins pieces of text with single spaces.
pub fn join_pieces(pieces: &Vec<String>) -> (r: String)
    ensures
        r@ == join_words(pieces@.map_values(|s: String| s@)),
{
    let ghost ps = pieces@.map_values(|s: String| s@);
    let mut out = String::new();
    let mut i: usize = 0;
    proof {
        reveal_strlit(" ");
    }
    while i < pieces.len()
        invariant
            i <= pieces.len(),
            ps == pieces@.map_values(|s: String| s@),
            out@ == join_words(ps.take(i as int)),
            " "@ == seq![' '],
        decreases pieces.len() - i,
    {
        assert(ps.take(i + 1).drop_last() =~= ps.take(i as int));
        assert(ps.take(i + 1).last() == ps[i as int]);
        if i > 0 {
            out.append(" ");
        }
        out.append(pieces[i].as_str());
        if i == 0 {
            assert(ps.take(1) =~= seq![ps[0]]);
            assert(out@ =~= ps[0]);
        }
        i = i + 1;
    }
    assert(ps.take(pieces.len() as int) =~= ps);
    out
}

/// Runs pieces of text together.
pub fn concat_all(pieces: &Vec<String>) -> (r: String)
    ensures
        r@ == concat_pieces(pieces@.map_values(|s: String| s@)),
{
    let ghost ps = pieces@.map_values(|s: String| s@);
    let mut out = String::new();
    let mut i: usize = 0;
    while i < pieces.len()
        invariant
            i <= pieces.len(),
            ps == pieces@.map_values(|s: String| s@),
            out@ == concat_pieces(ps.take(i as int)),
        decreases pieces.len() - i,
    {
        assert(ps.take(i + 1).drop_last() =~= ps.take(i as int));
        assert(ps.take(i + 1).last() == ps[i as int]);
        out.append(pieces[i].as_str());
        i = i + 1;
    }
    assert(ps.take(pieces.len() as int) =~= ps);
    out
}

/// The lines of readable text of the given elements' text nodes.
pub fn text_lines(elements: &Vec<Vec<String>>) -> (r: String)
    ensures
        r@ == body_lines(nested_views(elements@)),
{
    let ghost els = nested_views(elements@);
    let mut out = String::new();
    let mut i: usize = 0;
    proof {
        reveal_strlit("\n");
    }
    while i < elements.len()
        invariant
            i <= elements.len(),
            els == nested_views(elements@),
            out@ == body_lines(els.take(i as int)),
        decreases elements.len() - i,
    {
        assert(els.take(i + 1).drop_last() =~= els.take(i as int));
        assert(els.take(i + 1).last() == els[i as int]);
        let line = join_pieces(&elements[i]);
        if !is_blank(line.as_str()) {
            out.append(line.as_str());
            out.append("\n");
        }
        i = i + 1;
    }
    assert(els.take(elements.len() as int) =~= els);
    out
}

/// The readable text of an HTML page: the text of each `p`, heading, `li`
/// and `article` element of its body, one per line, blank ones skipped;
/// when that is empty, the text of the body joined by spaces.
pub fn parse_html(html: &str) -> (r: String)
    ensures
        r@ == page_text(html@),
{
    let lines = match select_texts(
        html,
        "body p, body h1, body h2, body h3, body h4, body h5, body h6, body li, body article",
    ) {
        Some(els) => text_lines(&els),
        None => String::new(),
    };
    if !lines.as_str().is_empty() {
        return lines;
    }
    match select_texts(html, "body") {
        Some(b) => {
            if b.len() > 0 {
                join_pieces(&b[0])
            } else {
                lines
            }
        },
        None => lines,
    }
}

/// The title of an HTML page: the text of its first `<title>` element, or
/// `Untitled` when it has none.
pub fn extract_title(html: &str) -> (r: String)
    ensures
        r@ == page_title(html@),
{
    match select_texts(html, "title") {
        Some(t) => {
            if t.len() > 0 {
                concat_all(&t[0])
            } else {
                String::from_str("Untitled")
            }
        },
        None => String::from_str("Untitled"),
    }
}

} // verus!
