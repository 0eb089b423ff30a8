//! An mdbook-style footnote expander.
//!
//! Footnotes are written inline as `Normal text{{footnote: Or is it?}} in body.`
//! Each marker is replaced by a numbered inline reference, and a rendered list
//! of the collected footnotes is appended to the end of the document body.
//! Two output styles are supported: hyperlinked HTML anchors and native
//! markdown footnotes.
use vstd::prelude::*;

pub mod book;
pub mod decimal;
pub mod laws;
pub mod render;
pub mod scan;

verus! {

/// Compares two string slices character by character.
pub fn str_eq(a: &str, b: &str) -> (r: bool)
    ensures
        r == (a@ == b@),
{
    let alen = a.unicode_len();
    let blen = b.unicode_len();
    if alen != blen {
        return false;
    }
    let mut i: usize = 0;
    while i < alen
        invariant
            alen == a@.len(),
            blen == b@.len(),
            alen == blen,
            0 <= i <= alen,
            forall|j: int| 0 <= j < i ==> a@[j] == b@[j],
        decreases alen - i,
    {
        if a.get_char(i) != b.get_char(i) {
            return false;
        }
        i += 1;
    }
    proof {
        assert(a@ =~= b@);
    }
    true
}

/// The footnote expander. The one piece of configuration is the output style:
/// native markdown footnotes, or hyperlinked HTML anchors (the default).
pub struct Footnote {
    pub md_footnotes: bool,
}

impl Default for Footnote {
    /// The default expander uses the hyperlink style.
    fn default() -> (f: Footnote)
        ensures
            !f.md_footnotes,
    {
        Footnote { md_footnotes: false }
    }
}

impl Footnote {
    /// Resolves the output style from the host's configuration: the value of
    /// the `markdown` option if it was present and boolean, `None` otherwise.
    /// Anything but an explicit `true` selects the hyperlink style.
    pub fn from_config(markdown: Option<bool>) -> (f: Footnote)
        ensures
            f.md_footnotes == (markdown == Some(true)),
    {
        match markdown {
            Some(b) => Footnote { md_footnotes: b },
            None => Footnote { md_footnotes: false },
        }
    }

    /// Indicate whether a renderer is supported. This expander can emit
    /// MarkDown so should support almost any renderer.
    pub fn supports_renderer(renderer: &str) -> (b: bool)
        ensures
            b == (renderer@ != "not-supported"@),
    {
        !str_eq(renderer, "not-supported")
    }

    /// Name of this preprocessor.
    pub fn name(&self) -> (r: &'static str)
        ensures
            r@ == "footnote-preprocessor"@,
    {
        "footnote-preprocessor"
    }

    /// Rewrites one document unit's body for the configured style.
    pub fn transform_body(&self, body: &str) -> (out: String)
        ensures
            out@ == crate::render::spec_transform(body@, self.md_footnotes),
    {
        crate::render::transform(body, self.md_footnotes)
    }

    /// Whether the advisory notice should be raised: HTML output was selected
    /// for a renderer not known to consume HTML.
    pub fn emits_html_warning(&self, renderer: &str) -> (w: bool)
        ensures
            w == (!self.md_footnotes && renderer@ != "html"@ && renderer@ != "linkcheck"@),
    {
        !self.md_footnotes && !str_eq(renderer, "html") && !str_eq(renderer, "linkcheck")
    }
}

} // verus!
