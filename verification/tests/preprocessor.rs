use footnote_preprocessor::Footnote;
use footnote_preprocessor::book::DocItem;
use footnote_preprocessor::book::DocTree;
use footnote_preprocessor::book::DocUnit;
use footnote_preprocessor::decimal::decimal_string;
use footnote_preprocessor::str_eq;

#[test]
fn supports_every_renderer_but_the_sentinel() {
    assert!(!Footnote::supports_renderer("not-supported"));
    assert!(Footnote::supports_renderer("html"));
    assert!(Footnote::supports_renderer("linkcheck"));
    assert!(Footnote::supports_renderer("epub"));
    assert!(Footnote::supports_renderer("some-novel-renderer"));
    assert!(Footnote::supports_renderer(""));
}

#[test]
fn config_defaults_to_hyperlink_style() {
    assert!(!Footnote::from_config(None).md_footnotes);
    assert!(!Footnote::from_config(Some(false)).md_footnotes);
    assert!(Footnote::from_config(Some(true)).md_footnotes);
}

#[test]
fn preprocessor_name() {
    let f = Footnote::from_config(None);
    assert_eq!(f.name(), "footnote-preprocessor");
}

#[test]
fn html_warning_only_for_unknown_renderers_in_hyperlink_style() {
    let hyperlink = Footnote::from_config(None);
    assert!(!hyperlink.emits_html_warning("html"));
    assert!(!hyperlink.emits_html_warning("linkcheck"));
    assert!(hyperlink.emits_html_warning("epub"));
    let markdown = Footnote::from_config(Some(true));
    assert!(!markdown.emits_html_warning("epub"));
}

#[test]
fn str_eq_compares_contents() {
    assert!(str_eq("abc", "abc"));
    assert!(!str_eq("abc", "abd"));
    assert!(!str_eq("abc", "ab"));
    assert!(str_eq("", ""));
}

#[test]
fn decimal_rendering() {
    assert_eq!(decimal_string(0), "0");
    assert_eq!(decimal_string(7), "7");
    assert_eq!(decimal_string(10), "10");
    assert_eq!(decimal_string(120), "120");
    assert_eq!(decimal_string(98765), "98765");
}

fn unit(body: &str, children: Vec<DocItem>) -> DocItem {
    DocItem::Unit(DocUnit { body: body.to_owned(), children })
}

#[test]
fn run_rewrites_every_unit_of_the_tree() {
    let tree = DocTree {
        items: vec![
            unit("A{{footnote: one}}B", vec![
                unit("no markers here", vec![]),
                unit("C{{footnote: two}}D", vec![]),
            ]),
            DocItem::Boundary,
            unit("{{footnote: deep}}", vec![]),
        ],
    };
    let f = Footnote::from_config(Some(true));
    let out = f.run(tree);
    assert_eq!(out.items.len(), 3);
    match &out.items[0] {
        DocItem::Unit(u) => {
            assert_eq!(u.body, "A[^1]B<p><hr/>\n\n\n[^1]: one");
            assert_eq!(u.children.len(), 2);
            match &u.children[0] {
                DocItem::Unit(c) => {
                    assert_eq!(c.body, "no markers here");
                    assert!(c.children.is_empty());
                }
                _ => panic!("expected a unit"),
            }
            match &u.children[1] {
                DocItem::Unit(c) => {
                    assert_eq!(c.body, "C[^1]D<p><hr/>\n\n\n[^1]: two");
                }
                _ => panic!("expected a unit"),
            }
        }
        _ => panic!("expected a unit"),
    }
    assert!(matches!(out.items[1], DocItem::Boundary));
    match &out.items[2] {
        DocItem::Unit(u) => {
            assert_eq!(u.body, "[^1]<p><hr/>\n\n\n[^1]: deep");
        }
        _ => panic!("expected a unit"),
    }
}

#[test]
fn numbering_resets_per_unit() {
    let tree = DocTree {
        items: vec![
            unit("x{{footnote: a}}y{{footnote: b}}z", vec![]),
            unit("p{{footnote: c}}q", vec![]),
        ],
    };
    let f = Footnote::from_config(Some(true));
    let out = f.run(tree);
    match (&out.items[0], &out.items[1]) {
        (DocItem::Unit(first), DocItem::Unit(second)) => {
            assert!(first.body.contains("[^2]: b"));
            assert!(second.body.contains("[^1]: c"));
            assert!(!second.body.contains("[^2]"));
        }
        _ => panic!("expected two units"),
    }
}
