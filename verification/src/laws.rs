//! Properties of the whole transformation, stated and proved once and for
//! all inputs.
use crate::decimal::digit_char;
use crate::decimal::spec_decimal;
use crate::render::block_entries;
use crate::render::block_entry;
use crate::render::block_separator;
use crate::render::inline_token;
use crate::render::marker_contents;
use crate::render::marker_count;
use crate::render::replaced_body;
use crate::render::spec_transform;
use crate::scan::find_close;
use crate::scan::find_open;
use crate::scan::is_close_at;
use crate::scan::is_marker_ws;
use crate::scan::is_open_at;
use crate::scan::lemma_find_close;
use crate::scan::lemma_find_open;
use crate::scan::lemma_next_marker;
use crate::scan::lemma_skip_ws;
use crate::scan::next_marker;
use crate::scan::skip_ws;
use vstd::prelude::*;

verus! {

/// A body without markers passes through whole: the output equals the input,
/// and no separator or trailing block is appended.
pub proof fn lemma_no_markers_unchanged(s: Seq<char>, md: bool)
    requires
        marker_count(s) == 0,
    ensures
        spec_transform(s, md) == s,
{
}

/// A body with markers becomes the marker-substituted text, then exactly one
/// separator, then one block entry per collected content, numbered 1 upward
/// in order of appearance.
pub proof fn lemma_output_shape(s: Seq<char>, md: bool)
    requires
        marker_count(s) >= 1,
    ensures
        spec_transform(s, md) == replaced_body(s, 0, 1, md) + block_separator(md) + block_entries(
            marker_contents(s, 0),
            1,
            md,
        ),
{
}

/// Switching the style changes only the rendering. Both styles draw on the
/// one collected sequence `marker_contents(s, 0)`, numbered from 1 in the
/// same order: the count and order of entries never depend on the style.
pub proof fn lemma_style_preserves_entries(s: Seq<char>, md1: bool, md2: bool)
    requires
        marker_count(s) >= 1,
    ensures
        spec_transform(s, md1) == replaced_body(s, 0, 1, md1) + block_separator(md1)
            + block_entries(marker_contents(s, 0), 1, md1),
        spec_transform(s, md2) == replaced_body(s, 0, 1, md2) + block_separator(md2)
            + block_entries(marker_contents(s, 0), 1, md2),
{
}

/// The transformation is deterministic: its output is a function of the body
/// and the style alone, so the same input under the same configuration gives
/// the identical output, run after run.
pub proof fn lemma_deterministic(s1: Seq<char>, s2: Seq<char>, md: bool)
    requires
        s1 == s2,
    ensures
        spec_transform(s1, md) == spec_transform(s2, md),
{
}

/// A body whose closing token appears nowhere matches nothing, however many
/// opening tokens it holds: an unterminated marker is left as literal text
/// and the body passes through unchanged.
pub proof fn lemma_unterminated_unchanged(s: Seq<char>, md: bool)
    requires
        forall|i: int| !is_close_at(s, i),
    ensures
        marker_count(s) == 0,
        spec_transform(s, md) == s,
{
    lemma_find_open(s, 0);
    match find_open(s, 0) {
        None => {
            assert(next_marker(s, 0) is None);
        },
        Some(o) => {
            assert(is_open_at(s, o));
            lemma_skip_ws(s, o + 11);
            let cs = skip_ws(s, o + 11);
            lemma_find_close(s, cs);
            match find_close(s, cs) {
                Some(ce) => {
                    assert(is_close_at(s, ce));
                    assert(false);
                },
                None => {},
            }
            assert(next_marker(s, 0) is None);
        },
    }
    assert(marker_contents(s, 0) == Seq::<Seq<char>>::empty());
}

/// A collected content never contains the closing token: each marker ends at
/// the first closing token that follows its content, so matches can neither
/// nest nor overlap.
pub proof fn lemma_contents_hold_no_close(s: Seq<char>, p: int)
    requires
        0 <= p <= s.len(),
    ensures
        forall|k: int, j: int|
            0 <= k < marker_contents(s, p).len() ==> !(#[trigger] is_close_at(
                marker_contents(s, p)[k],
                j,
            )),
    decreases s.len() - p,
{
    lemma_find_open(s, p);
    match find_open(s, p) {
        None => {},
        Some(o) => {
            lemma_skip_ws(s, o + 11);
            let cs = skip_ws(s, o + 11);
            lemma_find_close(s, cs);
            match find_close(s, cs) {
                None => {},
                Some(ce) => {
                    lemma_next_marker(s, p);
                    let c = s.subrange(cs, ce);
                    assert forall|j: int| !is_close_at(c, j) by {
                        if is_close_at(c, j) {
                            assert(s[cs + j] == c[j]);
                            assert(s[cs + j + 1] == c[j + 1]);
                            assert(is_close_at(s, cs + j));
                            assert(false);
                        }
                    }
                    lemma_contents_hold_no_close(s, ce + 2);
                    assert(marker_contents(s, p) == seq![c] + marker_contents(s, ce + 2));
                    assert forall|k: int, j: int|
                        0 <= k < marker_contents(s, p).len() implies !is_close_at(
                        marker_contents(s, p)[k],
                        j,
                    ) by {
                        if k == 0 {
                            assert(marker_contents(s, p)[0] == c);
                        } else {
                            assert(marker_contents(s, p)[k] == marker_contents(s, ce + 2)[k - 1]);
                        }
                    }
                },
            }
        },
    }
}

/// No marker stands anywhere in `t`: no opening token is followed, anywhere
/// at or after it, by a closing token.
spec fn holds_no_marker(t: Seq<char>) -> bool {
    forall|x: int, y: int|
        #![trigger is_open_at(t, x), is_close_at(t, y)]
        x <= y && is_open_at(t, x) ==> !is_close_at(t, y)
}

/// No closing token stands anywhere in `t`.
spec fn close_free(t: Seq<char>) -> bool {
    forall|y: int| !(#[trigger] is_close_at(t, y))
}

/// Neither brace character occurs in `t`.
spec fn brace_free(t: Seq<char>) -> bool {
    forall|i: int| 0 <= i < t.len() ==> (#[trigger] t[i]) != '{' && t[i] != '}'
}

proof fn lemma_brace_free_close_free(t: Seq<char>)
    requires
        brace_free(t),
    ensures
        close_free(t),
{
    assert forall|y: int| !is_close_at(t, y) by {
        if is_close_at(t, y) {
            assert(t[y] == '}');
        }
    }
}

proof fn lemma_brace_free_concat(a: Seq<char>, b: Seq<char>)
    requires
        brace_free(a),
        brace_free(b),
    ensures
        brace_free(a + b),
{
    assert forall|i: int| 0 <= i < (a + b).len() implies (a + b)[i] != '{' && (a + b)[i]
        != '}' by {
        if i < a.len() {
            assert((a + b)[i] == a[i]);
        } else {
            assert((a + b)[i] == b[i - a.len()]);
        }
    }
}

proof fn lemma_close_free_concat(a: Seq<char>, b: Seq<char>)
    requires
        close_free(a),
        close_free(b),
        b.len() == 0 || b[0] != '}' || a.len() == 0 || a[a.len() - 1] != '}',
    ensures
        close_free(a + b),
{
    assert forall|y: int| !is_close_at(a + b, y) by {
        if is_close_at(a + b, y) {
            if y + 2 <= a.len() {
                assert((a + b)[y] == a[y]);
                assert((a + b)[y + 1] == a[y + 1]);
                assert(is_close_at(a, y));
            } else if y >= a.len() {
                assert((a + b)[y] == b[y - a.len()]);
                assert((a + b)[y + 1] == b[y + 1 - a.len()]);
                assert(is_close_at(b, y - a.len()));
            } else {
                assert((a + b)[y] == a[a.len() - 1]);
                assert((a + b)[y + 1] == b[0]);
            }
        }
    }
}

proof fn lemma_decimal_brace_free(n: int)
    ensures
        brace_free(spec_decimal(n)),
    decreases n,
{
    if n < 10 {
        assert(spec_decimal(n) == seq![digit_char(n)]);
        assert(spec_decimal(n)[0] == digit_char(n));
    } else {
        lemma_decimal_brace_free(n / 10);
        assert(seq![digit_char(n % 10)][0] == digit_char(n % 10));
        lemma_brace_free_concat(spec_decimal(n / 10), seq![digit_char(n % 10)]);
    }
}

proof fn lemma_inline_token_facts(idx: int, md: bool)
    ensures
        brace_free(inline_token(idx, md)),
        inline_token(idx, md).len() > 0,
        inline_token(idx, md)[0] == '[' || inline_token(idx, md)[0] == '<',
{
    lemma_decimal_brace_free(idx);
    if md {
        reveal_strlit("[^");
        reveal_strlit("]");
        assert(brace_free("[^"@));
        assert(brace_free("]"@));
        lemma_brace_free_concat("[^"@, spec_decimal(idx));
        lemma_brace_free_concat("[^"@ + spec_decimal(idx), "]"@);
        assert(inline_token(idx, md)[0] == "[^"@[0]);
    } else {
        reveal_strlit("<sup><a name=\"to-footnote-");
        reveal_strlit("\">[");
        reveal_strlit("](#footnote-");
        reveal_strlit(")</a></sup>");
        let l1 = "<sup><a name=\"to-footnote-"@;
        let l2 = "\">["@;
        let l3 = "](#footnote-"@;
        let l4 = ")</a></sup>"@;
        let d = spec_decimal(idx);
        assert(brace_free(l1));
        assert(brace_free(l2));
        assert(brace_free(l3));
        assert(brace_free(l4));
        lemma_brace_free_concat(l1, d);
        lemma_brace_free_concat(l1 + d, l2);
        lemma_brace_free_concat(l1 + d + l2, d);
        lemma_brace_free_concat(l1 + d + l2 + d, l3);
        lemma_brace_free_concat(l1 + d + l2 + d + l3, d);
        lemma_brace_free_concat(l1 + d + l2 + d + l3 + d, l4);
        assert(inline_token(idx, md) == l1 + d + l2 + d + l3 + d + l4);
        assert(inline_token(idx, md)[0] == l1[0]);
    }
}

proof fn lemma_separator_facts(md: bool)
    ensures
        brace_free(block_separator(md)),
        block_separator(md).len() > 0,
        block_separator(md)[0] == '\n' || block_separator(md)[0] == '<',
{
    if md {
        reveal_strlit("<p><hr/>\n");
    } else {
        reveal_strlit("\n---\n");
    }
}

proof fn lemma_block_entry_facts(idx: int, c: Seq<char>, md: bool)
    requires
        close_free(c),
    ensures
        close_free(block_entry(idx, c, md)),
        block_entry(idx, c, md).len() > 0,
        block_entry(idx, c, md)[0] == '\n',
{
    lemma_decimal_brace_free(idx);
    let d = spec_decimal(idx);
    if md {
        reveal_strlit("\n\n[^");
        reveal_strlit("]: ");
        let l1 = "\n\n[^"@;
        let l2 = "]: "@;
        assert(brace_free(l1));
        assert(brace_free(l2));
        lemma_brace_free_concat(l1, d);
        lemma_brace_free_concat(l1 + d, l2);
        let pre = l1 + d + l2;
        lemma_brace_free_close_free(pre);
        assert(pre[pre.len() - 1] != '}');
        lemma_close_free_concat(pre, c);
        assert(block_entry(idx, c, md) == pre + c);
        assert(block_entry(idx, c, md)[0] == l1[0]);
    } else {
        reveal_strlit("\n\n<a name=\"footnote-");
        reveal_strlit("\">[");
        reveal_strlit("](#to-footnote-");
        reveal_strlit(")</a>: ");
        let l1 = "\n\n<a name=\"footnote-"@;
        let l2 = "\">["@;
        let l3 = "](#to-footnote-"@;
        let l4 = ")</a>: "@;
        assert(brace_free(l1));
        assert(brace_free(l2));
        assert(brace_free(l3));
        assert(brace_free(l4));
        lemma_brace_free_concat(l1, d);
        lemma_brace_free_concat(l1 + d, l2);
        lemma_brace_free_concat(l1 + d + l2, d);
        lemma_brace_free_concat(l1 + d + l2 + d, l3);
        lemma_brace_free_concat(l1 + d + l2 + d + l3, d);
        lemma_brace_free_concat(l1 + d + l2 + d + l3 + d, l4);
        let pre = l1 + d + l2 + d + l3 + d + l4;
        lemma_brace_free_close_free(pre);
        assert(pre[pre.len() - 1] != '}');
        lemma_close_free_concat(pre, c);
        assert(block_entry(idx, c, md) == pre + c);
        assert(block_entry(idx, c, md)[0] == l1[0]);
    }
}

proof fn lemma_block_entries_facts(cs: Seq<Seq<char>>, idx: int, md: bool)
    requires
        forall|k: int, j: int| 0 <= k < cs.len() ==> !(#[trigger] is_close_at(cs[k], j)),
    ensures
        close_free(block_entries(cs, idx, md)),
        cs.len() > 0 ==> block_entries(cs, idx, md).len() > 0 && block_entries(cs, idx, md)[0]
            == '\n',
    decreases cs.len(),
{
    if cs.len() == 0 {
        assert forall|y: int| !is_close_at(block_entries(cs, idx, md), y) by {}
    } else {
        assert(close_free(cs[0]));
        lemma_block_entry_facts(idx, cs[0], md);
        let rest = cs.drop_first();
        assert forall|k: int, j: int| 0 <= k < rest.len() implies !is_close_at(rest[k], j) by {
            assert(!is_close_at(cs[k + 1], j));
            assert(rest[k] == cs[k + 1]);
        }
        lemma_block_entries_facts(rest, idx + 1, md);
        lemma_close_free_concat(block_entry(idx, cs[0], md), block_entries(rest, idx + 1, md));
        assert(block_entries(cs, idx, md) == block_entry(idx, cs[0], md) + block_entries(
            rest,
            idx + 1,
            md,
        ));
        assert(block_entries(cs, idx, md)[0] == block_entry(idx, cs[0], md)[0]);
    }
}

proof fn lemma_open_in_left(a: Seq<char>, b: Seq<char>, x: int)
    requires
        is_open_at(a + b, x),
        x + 11 <= a.len(),
    ensures
        is_open_at(a, x),
{
    let t = a + b;
    assert(a[x] == t[x]);
    assert(a[x + 1] == t[x + 1]);
    assert(a[x + 2] == t[x + 2]);
    assert(a[x + 3] == t[x + 3]);
    assert(a[x + 4] == t[x + 4]);
    assert(a[x + 5] == t[x + 5]);
    assert(a[x + 6] == t[x + 6]);
    assert(a[x + 7] == t[x + 7]);
    assert(a[x + 8] == t[x + 8]);
    assert(a[x + 9] == t[x + 9]);
    assert(a[x + 10] == t[x + 10]);
}

proof fn lemma_open_in_right(a: Seq<char>, b: Seq<char>, x: int)
    requires
        is_open_at(a + b, x),
        x >= a.len(),
    ensures
        is_open_at(b, x - a.len()),
{
    let t = a + b;
    assert(b[x - a.len()] == t[x]);
    assert(b[x - a.len() + 1] == t[x + 1]);
    assert(b[x - a.len() + 2] == t[x + 2]);
    assert(b[x - a.len() + 3] == t[x + 3]);
    assert(b[x - a.len() + 4] == t[x + 4]);
    assert(b[x - a.len() + 5] == t[x + 5]);
    assert(b[x - a.len() + 6] == t[x + 6]);
    assert(b[x - a.len() + 7] == t[x + 7]);
    assert(b[x - a.len() + 8] == t[x + 8]);
    assert(b[x - a.len() + 9] == t[x + 9]);
    assert(b[x - a.len() + 10] == t[x + 10]);
}

proof fn lemma_close_in_left(a: Seq<char>, b: Seq<char>, y: int)
    requires
        is_close_at(a + b, y),
        y + 2 <= a.len(),
    ensures
        is_close_at(a, y),
{
    let t = a + b;
    assert(a[y] == t[y]);
    assert(a[y + 1] == t[y + 1]);
}

proof fn lemma_close_in_right(a: Seq<char>, b: Seq<char>, y: int)
    requires
        is_close_at(a + b, y),
        y >= a.len(),
    ensures
        is_close_at(b, y - a.len()),
{
    let t = a + b;
    assert(b[y - a.len()] == t[y]);
    assert(b[y - a.len() + 1] == t[y + 1]);
}

proof fn lemma_open_in_subrange(s: Seq<char>, p: int, q: int, x: int)
    requires
        0 <= p <= q <= s.len(),
        is_open_at(s.subrange(p, q), x),
    ensures
        is_open_at(s, p + x),
        p + x + 11 <= q,
{
    let t = s.subrange(p, q);
    assert(s[p + x] == t[x]);
    assert(s[p + x + 1] == t[x + 1]);
    assert(s[p + x + 2] == t[x + 2]);
    assert(s[p + x + 3] == t[x + 3]);
    assert(s[p + x + 4] == t[x + 4]);
    assert(s[p + x + 5] == t[x + 5]);
    assert(s[p + x + 6] == t[x + 6]);
    assert(s[p + x + 7] == t[x + 7]);
    assert(s[p + x + 8] == t[x + 8]);
    assert(s[p + x + 9] == t[x + 9]);
    assert(s[p + x + 10] == t[x + 10]);
}

proof fn lemma_close_in_subrange(s: Seq<char>, p: int, q: int, y: int)
    requires
        0 <= p <= q <= s.len(),
        is_close_at(s.subrange(p, q), y),
    ensures
        is_close_at(s, p + y),
        p + y + 2 <= q,
{
    let t = s.subrange(p, q);
    assert(s[p + y] == t[y]);
    assert(s[p + y + 1] == t[y + 1]);
}

/// Once the scan finds no further marker from `p` on, the untouched tail
/// holds no marker either: whatever closing tokens it has all stand before
/// its first opening token.
proof fn lemma_tail_consumed(s: Seq<char>, p: int)
    requires
        0 <= p <= s.len(),
        next_marker(s, p) is None,
    ensures
        holds_no_marker(s.subrange(p, s.len() as int)),
{
    let t = s.subrange(p, s.len() as int);
    lemma_find_open(s, p);
    match find_open(s, p) {
        None => {
            assert forall|x: int, y: int|
                #![trigger is_open_at(t, x), is_close_at(t, y)]
                x <= y && is_open_at(t, x) implies !is_close_at(t, y) by {
                lemma_open_in_subrange(s, p, s.len() as int, x);
            }
        },
        Some(o) => {
            lemma_skip_ws(s, o + 11);
            let cs = skip_ws(s, o + 11);
            lemma_find_close(s, cs);
            assert(find_close(s, cs) is None);
            assert forall|x: int, y: int|
                #![trigger is_open_at(t, x), is_close_at(t, y)]
                x <= y && is_open_at(t, x) implies !is_close_at(t, y) by {
                if is_close_at(t, y) {
                    lemma_open_in_subrange(s, p, s.len() as int, x);
                    lemma_close_in_subrange(s, p, s.len() as int, y);
                    assert(p + x >= o);
                    let q = p + y;
                    assert(q >= o);
                    if q < o + 11 {
                        if q == o {
                            assert(s[q] == '{');
                        } else if q == o + 1 {
                            assert(s[q] == '{');
                        } else if q == o + 2 {
                            assert(s[q] == 'f');
                        } else if q == o + 3 {
                            assert(s[q] == 'o');
                        } else if q == o + 4 {
                            assert(s[q] == 'o');
                        } else if q == o + 5 {
                            assert(s[q] == 't');
                        } else if q == o + 6 {
                            assert(s[q] == 'n');
                        } else if q == o + 7 {
                            assert(s[q] == 'o');
                        } else if q == o + 8 {
                            assert(s[q] == 't');
                        } else if q == o + 9 {
                            assert(s[q] == 'e');
                        } else {
                            assert(s[q] == ':');
                        }
                        assert(false);
                    } else if q < cs {
                        assert(is_marker_ws(s[q]));
                        assert(false);
                    } else {
                        assert(!is_close_at(s, q));
                        assert(false);
                    }
                }
            }
        },
    }
}

/// The marker-substituted text holds no marker: the text between matches has
/// no opening token with a closing token after it, and the inline tokens
/// contribute no brace at all.
proof fn lemma_replaced_consumed(s: Seq<char>, p: int, idx: int, md: bool)
    requires
        0 <= p <= s.len(),
    ensures
        holds_no_marker(replaced_body(s, p, idx, md)),
    decreases s.len() - p,
{
    lemma_next_marker(s, p);
    match next_marker(s, p) {
        None => {
            lemma_tail_consumed(s, p);
            assert(replaced_body(s, p, idx, md) == s.subrange(p, s.len() as int));
        },
        Some(m) => {
            lemma_replaced_consumed(s, m.end, idx + 1, md);
            lemma_inline_token_facts(idx, md);
            lemma_find_open(s, p);
            let tseg = s.subrange(p, m.start);
            let tok = inline_token(idx, md);
            let r2 = replaced_body(s, m.end, idx + 1, md);
            let t = tseg + tok + r2;
            assert(replaced_body(s, p, idx, md) == t);
            let fl = tseg.len() as int + tok.len() as int;
            assert forall|x: int, y: int|
                #![trigger is_open_at(t, x), is_close_at(t, y)]
                x <= y && is_open_at(t, x) implies !is_close_at(t, y) by {
                if is_close_at(t, y) {
                    if x + 11 <= tseg.len() {
                        lemma_open_in_left(tseg + tok, r2, x);
                        lemma_open_in_left(tseg, tok, x);
                        lemma_open_in_subrange(s, p, m.start, x);
                        assert(false);
                    } else if x < tseg.len() {
                        assert(t[tseg.len() as int] == tok[0]);
                        let dd = tseg.len() - x;
                        if dd == 1 {
                            assert(t[x + 1] == '{');
                        } else if dd == 2 {
                            assert(t[x + 2] == 'f');
                        } else if dd == 3 {
                            assert(t[x + 3] == 'o');
                        } else if dd == 4 {
                            assert(t[x + 4] == 'o');
                        } else if dd == 5 {
                            assert(t[x + 5] == 't');
                        } else if dd == 6 {
                            assert(t[x + 6] == 'n');
                        } else if dd == 7 {
                            assert(t[x + 7] == 'o');
                        } else if dd == 8 {
                            assert(t[x + 8] == 't');
                        } else if dd == 9 {
                            assert(t[x + 9] == 'e');
                        } else {
                            assert(t[x + 10] == ':');
                        }
                        assert(false);
                    } else if x < fl {
                        assert(t[x] == tok[x - tseg.len()]);
                        assert(false);
                    } else {
                        lemma_open_in_right(tseg + tok, r2, x);
                        lemma_close_in_right(tseg + tok, r2, y);
                        assert(false);
                    }
                }
            }
        },
    }
}

proof fn lemma_no_marker_no_matches(t: Seq<char>)
    requires
        holds_no_marker(t),
    ensures
        marker_count(t) == 0,
{
    lemma_find_open(t, 0);
    match find_open(t, 0) {
        None => {
            assert(next_marker(t, 0) is None);
        },
        Some(o) => {
            lemma_skip_ws(t, o + 11);
            let cs = skip_ws(t, o + 11);
            lemma_find_close(t, cs);
            match find_close(t, cs) {
                None => {},
                Some(ce) => {
                    assert(is_open_at(t, o));
                    assert(is_close_at(t, ce));
                    assert(o <= ce);
                    assert(false);
                },
            }
            assert(next_marker(t, 0) is None);
        },
    }
    assert(marker_contents(t, 0) == Seq::<Seq<char>>::empty());
}

/// Markers are consumed: the transformed body holds zero occurrences of the
/// marker pattern, so a later pass over it finds nothing and changes nothing.
pub proof fn lemma_markers_consumed(s: Seq<char>, md: bool)
    ensures
        marker_count(spec_transform(s, md)) == 0,
        spec_transform(spec_transform(s, md), md) == spec_transform(s, md),
{
    if marker_count(s) == 0 {
        assert(spec_transform(s, md) == s);
    } else {
        lemma_replaced_consumed(s, 0, 1, md);
        lemma_separator_facts(md);
        lemma_brace_free_close_free(block_separator(md));
        lemma_contents_hold_no_close(s, 0);
        lemma_block_entries_facts(marker_contents(s, 0), 1, md);
        let r = replaced_body(s, 0, 1, md);
        let sep = block_separator(md);
        let e = block_entries(marker_contents(s, 0), 1, md);
        let t = r + sep + e;
        assert(spec_transform(s, md) == t);
        let rl = r.len() as int;
        let sl = sep.len() as int;
        assert forall|x: int, y: int|
            #![trigger is_open_at(t, x), is_close_at(t, y)]
            x <= y && is_open_at(t, x) implies !is_close_at(t, y) by {
            if is_close_at(t, y) {
                if y + 2 <= rl {
                    lemma_close_in_left(r + sep, e, y);
                    lemma_close_in_left(r, sep, y);
                    if x + 11 <= rl {
                        lemma_open_in_left(r + sep, e, x);
                        lemma_open_in_left(r, sep, x);
                        assert(false);
                    } else {
                        assert(t[rl] == sep[0]);
                        let dd = rl - x;
                        assert(1 <= dd < 11);
                        if dd == 1 {
                            assert(t[x + 1] == '{');
                        } else if dd == 2 {
                            assert(t[x + 2] == 'f');
                        } else if dd == 3 {
                            assert(t[x + 3] == 'o');
                        } else if dd == 4 {
                            assert(t[x + 4] == 'o');
                        } else if dd == 5 {
                            assert(t[x + 5] == 't');
                        } else if dd == 6 {
                            assert(t[x + 6] == 'n');
                        } else if dd == 7 {
                            assert(t[x + 7] == 'o');
                        } else if dd == 8 {
                            assert(t[x + 8] == 't');
                        } else if dd == 9 {
                            assert(t[x + 9] == 'e');
                        } else {
                            assert(t[x + 10] == ':');
                        }
                        assert(false);
                    }
                } else if y >= rl + sl {
                    lemma_close_in_right(r + sep, e, y);
                    assert(false);
                } else if y >= rl && y + 2 <= rl + sl {
                    lemma_close_in_left(r + sep, e, y);
                    lemma_close_in_right(r, sep, y);
                    assert(sep[y - rl] == '}');
                    assert(false);
                } else if y == rl - 1 {
                    assert(t[y + 1] == sep[0]);
                    assert(t[y + 1] == '}');
                    assert(false);
                } else {
                    assert(y == rl + sl - 1);
                    assert(t[y] == sep[sl - 1]);
                    assert(t[y] == '}');
                    assert(false);
                }
            }
        }
        lemma_no_marker_no_matches(t);
        lemma_no_markers_unchanged(t, md);
    }
}

} // verus!
