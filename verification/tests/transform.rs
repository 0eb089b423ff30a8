use footnote_preprocessor::Footnote;

fn hyperlink() -> Footnote {
    Footnote { md_footnotes: false }
}

fn markdown() -> Footnote {
    Footnote { md_footnotes: true }
}

#[test]
fn no_markers_unchanged_hyperlink() {
    let body = "Just some **markup** text.\nNothing to see here.";
    assert_eq!(hyperlink().transform_body(body), body);
}

#[test]
fn no_markers_unchanged_markdown() {
    let body = "Just some **markup** text.\nNothing to see here.";
    assert_eq!(markdown().transform_body(body), body);
}

#[test]
fn empty_body_unchanged() {
    assert_eq!(hyperlink().transform_body(""), "");
    assert_eq!(markdown().transform_body(""), "");
}

#[test]
fn two_markers_hyperlink_style() {
    let body = "A{{footnote: one}}B{{footnote: two}}C";
    let expected = "A<sup><a name=\"to-footnote-1\">[1](#footnote-1)</a></sup>B<sup><a name=\"to-footnote-2\">[2](#footnote-2)</a></sup>C\n---\n\n\n<a name=\"footnote-1\">[1](#to-footnote-1)</a>: one\n\n<a name=\"footnote-2\">[2](#to-footnote-2)</a>: two";
    assert_eq!(hyperlink().transform_body(body), expected);
}

#[test]
fn two_markers_markdown_style() {
    let body = "A{{footnote: one}}B{{footnote: two}}C";
    let expected = "A[^1]B[^2]C<p><hr/>\n\n\n[^1]: one\n\n[^2]: two";
    assert_eq!(markdown().transform_body(body), expected);
}

#[test]
fn multiline_content_captured_whole() {
    let body = "{{footnote: line one\nline two}}";
    let expected = "[^1]<p><hr/>\n\n\n[^1]: line one\nline two";
    assert_eq!(markdown().transform_body(body), expected);
}

#[test]
fn empty_content_still_one_entry() {
    let body = "x{{footnote:}}y";
    let expected = "x[^1]y<p><hr/>\n\n\n[^1]: ";
    assert_eq!(markdown().transform_body(body), expected);
}

#[test]
fn unterminated_marker_passes_through() {
    let body = "{{footnote: oops";
    assert_eq!(hyperlink().transform_body(body), body);
    assert_eq!(markdown().transform_body(body), body);
}

#[test]
fn leading_whitespace_stripped_trailing_kept() {
    let body = "{{footnote: \t pad  }}";
    let expected = "[^1]<p><hr/>\n\n\n[^1]: pad  ";
    assert_eq!(markdown().transform_body(body), expected);
}

#[test]
fn newline_after_colon_is_whitespace() {
    let body = "{{footnote:\nx}}";
    let expected = "[^1]<p><hr/>\n\n\n[^1]: x";
    assert_eq!(markdown().transform_body(body), expected);
}

#[test]
fn content_ends_at_first_closing_token() {
    let body = "{{footnote: a}}b}}";
    let expected = "[^1]b}}<p><hr/>\n\n\n[^1]: a";
    assert_eq!(markdown().transform_body(body), expected);
}

#[test]
fn nested_opening_token_is_content() {
    let body = "{{footnote: {{footnote: x}}";
    let expected = "[^1]<p><hr/>\n\n\n[^1]: {{footnote: x";
    assert_eq!(markdown().transform_body(body), expected);
}

#[test]
fn single_brace_inside_content() {
    let body = "{{footnote: a}b}}";
    let expected = "[^1]<p><hr/>\n\n\n[^1]: a}b";
    assert_eq!(markdown().transform_body(body), expected);
}

#[test]
fn deterministic_and_consuming() {
    let body = "A{{footnote: one}}B";
    let first = markdown().transform_body(body);
    let again = markdown().transform_body(body);
    assert_eq!(first, again);
    assert_ne!(first, body);
    let second = markdown().transform_body(&first);
    assert_eq!(second, first);
}

#[test]
fn style_switch_keeps_count_and_order() {
    let body = "p{{footnote: u}}q{{footnote: v}}r{{footnote: w}}s";
    let h = hyperlink().transform_body(body);
    let m = markdown().transform_body(body);
    for needle in ["footnote-1", "footnote-2", "footnote-3"] {
        assert!(h.contains(needle));
    }
    for needle in ["[^1]: u", "[^2]: v", "[^3]: w"] {
        assert!(m.contains(needle));
    }
    let upos = m.find("[^1]: u").unwrap();
    let vpos = m.find("[^2]: v").unwrap();
    let wpos = m.find("[^3]: w").unwrap();
    assert!(upos < vpos && vpos < wpos);
}

#[test]
fn indices_reach_double_digits() {
    let mut body = String::new();
    for _ in 0..11 {
        body.push_str("{{footnote: n}}");
    }
    let out = markdown().transform_body(&body);
    assert!(out.contains("[^10]"));
    assert!(out.contains("[^11]: n"));
    assert!(!out.contains("[^12]"));
}

#[test]
fn unicode_whitespace_after_colon_is_stripped() {
    let body = "{{footnote:\u{00A0}\u{2003}x}}";
    let expected = "[^1]<p><hr/>\n\n\n[^1]: x";
    assert_eq!(markdown().transform_body(body), expected);
}

#[test]
fn unicode_text_passes_through() {
    let body = "héllo wörld {{footnote: nöte}} ✓";
    let expected = "héllo wörld [^1] ✓<p><hr/>\n\n\n[^1]: nöte";
    assert_eq!(markdown().transform_body(body), expected);
}
