use research_core::parser::{extract_title, join_pieces, parse_html};

#[test]
fn body_elements_one_per_line() {
    let html = "<html><head><title>Capitals</title></head><body><h1>Facts</h1><p>The capital of <i>France</i> is Paris.</p><p>   </p><ul><li>One</li></ul><script>x()</script></body></html>";
    assert_eq!(parse_html(html), "Facts\nThe capital of  France  is Paris.\nOne\n");
}

#[test]
fn body_text_is_the_fallback() {
    let html = "<html><body><div>Only</div><span>divs</span></body></html>";
    assert_eq!(parse_html(html), "Only divs");
}

#[test]
fn title_is_read_or_defaulted() {
    assert_eq!(extract_title("<html><head><title>A <b>page</b></title></head></html>"), "A <b>page</b>");
    assert_eq!(extract_title("<html><body><p>x</p></body></html>"), "Untitled");
}

#[test]
fn pieces_join_with_spaces() {
    let v = vec!["a".to_string(), "b c".to_string()];
    assert_eq!(join_pieces(&v), "a b c");
    assert_eq!(join_pieces(&vec![]), "");
}
