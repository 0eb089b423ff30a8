//! The footnote renderer: inline replacement tokens, the trailing footnote
//! block, and the whole per-document transformation.
//!
//! Two output styles exist, selected by one boolean (`md`): native markdown
//! footnotes (`true`), or hyperlinked HTML anchors (`false`, the default).
//! The style decides only how entries are rendered, never which markers are
//! found nor in what order their contents are collected.
use crate::decimal::decimal_string;
use crate::decimal::spec_decimal;
use crate::scan::MarkerMatch;
use crate::scan::lemma_next_marker;
use crate::scan::next_marker;
use crate::scan::find_close_at;
use crate::scan::find_open_at;
use crate::scan::skip_ws_at;
use vstd::prelude::*;

verus! {

/// The inline replacement token for the marker assigned index `idx`. It
/// depends solely on the style and the index, never on the content.
pub open spec fn inline_token(idx: int, md: bool) -> Seq<char> {
    if md {
        "[^"@ + spec_decimal(idx) + "]"@
    } else {
        "<sup><a name=\"to-footnote-"@ + spec_decimal(idx) + "\">["@ + spec_decimal(idx)
            + "](#footnote-"@ + spec_decimal(idx) + ")</a></sup>"@
    }
}

/// The separator that opens the trailing footnote block.
pub open spec fn block_separator(md: bool) -> Seq<char> {
    if md {
        "<p><hr/>\n"@
    } else {
        "\n---\n"@
    }
}

/// One rendered entry of the trailing block.
pub open spec fn block_entry(idx: int, content: Seq<char>, md: bool) -> Seq<char> {
    if md {
        "\n\n[^"@ + spec_decimal(idx) + "]: "@ + content
    } else {
        "\n\n<a name=\"footnote-"@ + spec_decimal(idx) + "\">["@ + spec_decimal(idx)
            + "](#to-footnote-"@ + spec_decimal(idx) + ")</a>: "@ + content
    }
}

/// The trailing block's entries for `contents`, one per content in order,
/// numbered upward from `idx`.
pub open spec fn block_entries(contents: Seq<Seq<char>>, idx: int, md: bool) -> Seq<char>
    decreases contents.len(),
{
    if contents.len() == 0 {
        Seq::empty()
    } else {
        block_entry(idx, contents[0], md) + block_entries(contents.drop_first(), idx + 1, md)
    }
}

/// The contents of every marker of `s` at or after position `p`, in order of
/// appearance. The style plays no part here: which markers are found, and in
/// what order, is the scanner's business alone.
pub open spec fn marker_contents(s: Seq<char>, p: int) -> Seq<Seq<char>>
    decreases s.len() - p via marker_contents_dec
{
    if p < 0 || p > s.len() {
        Seq::empty()
    } else {
        match next_marker(s, p) {
            None => Seq::empty(),
            Some(m) => seq![s.subrange(m.content_start, m.content_end)] + marker_contents(
                s,
                m.end,
            ),
        }
    }
}

#[via_fn]
proof fn marker_contents_dec(s: Seq<char>, p: int) {
    if 0 <= p <= s.len() {
        lemma_next_marker(s, p);
    }
}

/// The suffix of `s` from position `p` with every marker replaced by its
/// inline token, markers numbered upward from `idx`.
pub open spec fn replaced_body(s: Seq<char>, p: int, idx: int, md: bool) -> Seq<char>
    decreases s.len() - p via replaced_body_dec
{
    if p < 0 || p > s.len() {
        Seq::empty()
    } else {
        match next_marker(s, p) {
            None => s.subrange(p, s.len() as int),
            Some(m) => s.subrange(p, m.start) + inline_token(idx, md) + replaced_body(
                s,
                m.end,
                idx + 1,
                md,
            ),
        }
    }
}

#[via_fn]
proof fn replaced_body_dec(s: Seq<char>, p: int, idx: int, md: bool) {
    if 0 <= p <= s.len() {
        lemma_next_marker(s, p);
    }
}

/// The number of markers in `s`.
pub open spec fn marker_count(s: Seq<char>) -> nat {
    marker_contents(s, 0).len()
}

/// The whole transformation of one document unit's body: every marker
/// replaced in place by its inline token, and, when at least one marker was
/// found, the separator and the trailing block appended; otherwise the body
/// unchanged.
pub open spec fn spec_transform(s: Seq<char>, md: bool) -> Seq<char> {
    if marker_count(s) == 0 {
        s
    } else {
        replaced_body(s, 0, 1, md) + block_separator(md) + block_entries(
            marker_contents(s, 0),
            1,
            md,
        )
    }
}

/// Appends the inline token for index `idx` to `out`.
fn append_inline_token(out: &mut String, idx: usize, md: bool)
    ensures
        final(out)@ == old(out)@ + inline_token(idx as int, md),
{
    let num = decimal_string(idx);
    if md {
        out.append("[^");
        out.append(num.as_str());
        out.append("]");
    } else {
        out.append("<sup><a name=\"to-footnote-");
        out.append(num.as_str());
        out.append("\">[");
        out.append(num.as_str());
        out.append("](#footnote-");
        out.append(num.as_str());
        out.append(")</a></sup>");
    }
    proof {
        assert(final(out)@ =~= old(out)@ + inline_token(idx as int, md));
    }
}

/// Appends the block entry for index `idx` and `content` to `out`.
fn append_block_entry(out: &mut String, idx: usize, content: &str, md: bool)
    ensures
        final(out)@ == old(out)@ + block_entry(idx as int, content@, md),
{
    let num = decimal_string(idx);
    if md {
        out.append("\n\n[^");
        out.append(num.as_str());
        out.append("]: ");
        out.append(content);
    } else {
        out.append("\n\n<a name=\"footnote-");
        out.append(num.as_str());
        out.append("\">[");
        out.append(num.as_str());
        out.append("](#to-footnote-");
        out.append(num.as_str());
        out.append(")</a>: ");
        out.append(content);
    }
    proof {
        assert(final(out)@ =~= old(out)@ + block_entry(idx as int, content@, md));
    }
}

/// Rewrites one document unit's body: every marker is replaced, in order of
/// appearance, by the inline token for its 1-based index, and when at least
/// one marker was found the block separator and the rendered footnote block
/// are appended. A body without markers comes back unchanged.
pub fn transform(body: &str, md: bool) -> (out: String)
    ensures
        out@ == spec_transform(body@, md),
{
    let ghost s = body@;
    let len = body.unicode_len();
    let mut out = String::new();
    let mut notes: Vec<String> = Vec::new();
    let mut pos: usize = 0;
    proof {
        assert(notes.deep_view() =~= Seq::<Seq<char>>::empty());
        assert(out@ + replaced_body(s, 0, 1, md) =~= replaced_body(s, 0, 1, md));
        assert(notes.deep_view() + marker_contents(s, 0) =~= marker_contents(s, 0));
    }
    loop
        invariant
            len == s.len(),
            s == body@,
            pos <= len,
            13 * (notes.len() as int) <= pos as int,
            replaced_body(s, 0, 1, md) == out@ + replaced_body(
                s,
                pos as int,
                notes.len() as int + 1,
                md,
            ),
            marker_contents(s, 0) == notes.deep_view() + marker_contents(s, pos as int),
        ensures
            len == s.len(),
            pos <= len,
            13 * (notes.len() as int) <= pos as int,
            next_marker(s, pos as int) is None,
            replaced_body(s, 0, 1, md) == out@ + replaced_body(
                s,
                pos as int,
                notes.len() as int + 1,
                md,
            ),
            marker_contents(s, 0) == notes.deep_view() + marker_contents(s, pos as int),
        decreases len - pos,
    {
        let o = match find_open_at(body, pos) {
            Some(o) => o,
            None => break ,
        };
        let cs = skip_ws_at(body, o + 11);
        let ce = match find_close_at(body, cs) {
            Some(c) => c,
            None => break ,
        };
        let ghost p0 = pos as int;
        let ghost c: int = notes.len() as int;
        let ghost prev_deep = notes.deep_view();
        proof {
            lemma_next_marker(s, p0);
            assert(next_marker(s, p0) == Some(
                MarkerMatch {
                    start: o as int,
                    content_start: cs as int,
                    content_end: ce as int,
                    end: ce as int + 2,
                },
            ));
        }
        out.append(body.substring_char(pos, o));
        let idx = notes.len() + 1;
        append_inline_token(&mut out, idx, md);
        notes.push(body.substring_char(cs, ce).to_owned());
        proof {
            assert(notes.deep_view() =~= prev_deep.push(s.subrange(cs as int, ce as int)));
            assert(replaced_body(s, p0, c + 1, md) == s.subrange(p0, o as int) + inline_token(
                c + 1,
                md,
            ) + replaced_body(s, ce as int + 2, c + 2, md));
            assert(marker_contents(s, p0) == seq![s.subrange(cs as int, ce as int)]
                + marker_contents(s, ce as int + 2));
            assert(replaced_body(s, 0, 1, md) =~= out@ + replaced_body(
                s,
                ce as int + 2,
                c + 2,
                md,
            ));
            assert(marker_contents(s, 0) =~= notes.deep_view() + marker_contents(
                s,
                ce as int + 2,
            ));
        }
        pos = ce + 2;
    }
    out.append(body.substring_char(pos, len));
    proof {
        assert(replaced_body(s, pos as int, notes.len() as int + 1, md) == s.subrange(
            pos as int,
            len as int,
        ));
        assert(out@ =~= replaced_body(s, 0, 1, md));
        assert(marker_contents(s, pos as int) =~= Seq::<Seq<char>>::empty());
        assert(marker_contents(s, 0) =~= notes.deep_view());
    }
    if notes.len() == 0 {
        proof {
            assert(notes.deep_view() =~= Seq::<Seq<char>>::empty());
            assert(marker_count(s) == 0);
            assert(out@ =~= s);
        }
        out
    } else {
        append_separator(&mut out, md);
        let ghost deep = notes.deep_view();
        let ghost base = out@;
        proof {
            assert(deep.skip(0) =~= deep);
        }
        let mut k: usize = 0;
        while k < notes.len()
            invariant
                k <= notes.len(),
                notes.deep_view() == deep,
                out@ + block_entries(deep.skip(k as int), k as int + 1, md) == base
                    + block_entries(deep, 1, md),
            decreases notes.len() - k,
        {
            append_block_entry(&mut out, k + 1, notes[k].as_str(), md);
            proof {
                assert(deep.skip(k as int).drop_first() =~= deep.skip(k as int + 1));
                assert(deep.skip(k as int)[0] == deep[k as int]);
                assert(block_entries(deep.skip(k as int), k as int + 1, md) == block_entry(
                    k as int + 1,
                    deep[k as int],
                    md,
                ) + block_entries(deep.skip(k as int + 1), k as int + 2, md));
                assert(out@ + block_entries(deep.skip(k as int + 1), k as int + 2, md) =~= base
                    + block_entries(deep, 1, md));
            }
            k += 1;
        }
        proof {
            assert(deep.skip(notes.len() as int) =~= Seq::<Seq<char>>::empty());
            assert(block_entries(deep.skip(notes.len() as int), notes.len() as int + 1, md)
                =~= Seq::<char>::empty());
            assert(out@ =~= base + block_entries(deep, 1, md));
            assert(marker_count(s) != 0);
            assert(out@ =~= spec_transform(s, md));
        }
        out
    }
}

/// Appends the block separator to `out`.
fn append_separator(out: &mut String, md: bool)
    ensures
        final(out)@ == old(out)@ + block_separator(md),
{
    if md {
        out.append("<p><hr/>\n");
    } else {
        out.append("\n---\n");
    }
}

} // verus!
