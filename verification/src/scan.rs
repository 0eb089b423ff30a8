//! The marker scanner: locates every footnote marker in a text body.
//!
//! A marker is an opening token `{{footnote:` followed by optional whitespace,
//! then content captured up to the first following closing token `}}`. The
//! content may span multiple lines. If the content itself contains the closing
//! token, the marker ends at the *first* occurrence of that token: there is no
//! escaping mechanism. A marker without a closing token does not match and is
//! left as literal text.
use vstd::prelude::*;

verus! {

/// One located marker: the position of its opening token, the bounds of its
/// captured content (leading whitespace already skipped), and the position
/// just past its closing token.
pub struct MarkerMatch {
    pub start: int,
    pub content_start: int,
    pub content_end: int,
    pub end: int,
}

/// The characters the scanner skips between the opening token's colon and the
/// captured content: the whitespace class of the marker grammar.
pub open spec fn is_marker_ws(c: char) -> bool {
    ||| c == ' '
    ||| c == '\t'
    ||| c == '\n'
    ||| c == '\r'
    ||| c == '\u{000B}'
    ||| c == '\u{000C}'
    ||| c == '\u{0085}'
    ||| c == '\u{00A0}'
    ||| c == '\u{1680}'
    ||| (0x2000 <= c as u32 && c as u32 <= 0x200A)
    ||| c == '\u{2028}'
    ||| c == '\u{2029}'
    ||| c == '\u{202F}'
    ||| c == '\u{205F}'
    ||| c == '\u{3000}'
}

/// The opening token `{{footnote:` stands at position `i` of `s`.
pub open spec fn is_open_at(s: Seq<char>, i: int) -> bool {
    &&& 0 <= i
    &&& i + 11 <= s.len()
    &&& s[i] == '{'
    &&& s[i + 1] == '{'
    &&& s[i + 2] == 'f'
    &&& s[i + 3] == 'o'
    &&& s[i + 4] == 'o'
    &&& s[i + 5] == 't'
    &&& s[i + 6] == 'n'
    &&& s[i + 7] == 'o'
    &&& s[i + 8] == 't'
    &&& s[i + 9] == 'e'
    &&& s[i + 10] == ':'
}

/// The closing token `}}` stands at position `i` of `s`.
pub open spec fn is_close_at(s: Seq<char>, i: int) -> bool {
    &&& 0 <= i
    &&& i + 2 <= s.len()
    &&& s[i] == '}'
    &&& s[i + 1] == '}'
}

/// The opening token, characterized as a substring rather than character by
/// character.
pub proof fn lemma_open_is_token(s: Seq<char>, i: int)
    requires
        0 <= i,
        i + 11 <= s.len(),
    ensures
        is_open_at(s, i) <==> s.subrange(i, i + 11) == "{{footnote:"@,
{
    reveal_strlit("{{footnote:");
    if is_open_at(s, i) {
        assert(s.subrange(i, i + 11) =~= "{{footnote:"@);
    }
    if s.subrange(i, i + 11) == "{{footnote:"@ {
        let t = s.subrange(i, i + 11);
        assert(s[i] == t[0]);
        assert(s[i + 1] == t[1]);
        assert(s[i + 2] == t[2]);
        assert(s[i + 3] == t[3]);
        assert(s[i + 4] == t[4]);
        assert(s[i + 5] == t[5]);
        assert(s[i + 6] == t[6]);
        assert(s[i + 7] == t[7]);
        assert(s[i + 8] == t[8]);
        assert(s[i + 9] == t[9]);
        assert(s[i + 10] == t[10]);
        assert(is_open_at(s, i));
    }
}

/// The position of the first opening token at or after position `i`, if any.
pub open spec fn find_open(s: Seq<char>, i: int) -> Option<int>
    decreases s.len() - i,
{
    if i < 0 || s.len() < i + 11 {
        None
    } else if is_open_at(s, i) {
        Some(i)
    } else {
        find_open(s, i + 1)
    }
}

/// `find_open` returns the leftmost opening token at or after `i`, or reports
/// that there is none.
pub proof fn lemma_find_open(s: Seq<char>, i: int)
    requires
        0 <= i,
    ensures
        match find_open(s, i) {
            Some(o) => {
                &&& i <= o
                &&& is_open_at(s, o)
                &&& forall|j: int| i <= j < o ==> !is_open_at(s, j)
            },
            None => forall|j: int| i <= j ==> !is_open_at(s, j),
        },
    decreases s.len() - i,
{
    if i < 0 || s.len() < i + 11 {
        assert forall|j: int| i <= j implies !is_open_at(s, j) by {
            if is_open_at(s, j) {
                assert(0 <= j && j + 11 <= s.len());
            }
        }
    } else if is_open_at(s, i) {
    } else {
        lemma_find_open(s, i + 1);
    }
}

/// The position of the first closing token at or after position `i`, if any.
pub open spec fn find_close(s: Seq<char>, i: int) -> Option<int>
    decreases s.len() - i,
{
    if i < 0 || s.len() < i + 2 {
        None
    } else if is_close_at(s, i) {
        Some(i)
    } else {
        find_close(s, i + 1)
    }
}

/// `find_close` returns the leftmost closing token at or after `i`, or reports
/// that there is none.
pub proof fn lemma_find_close(s: Seq<char>, i: int)
    requires
        0 <= i,
    ensures
        match find_close(s, i) {
            Some(c) => {
                &&& i <= c
                &&& is_close_at(s, c)
                &&& forall|j: int| i <= j < c ==> !is_close_at(s, j)
            },
            None => forall|j: int| i <= j ==> !is_close_at(s, j),
        },
    decreases s.len() - i,
{
    if i < 0 || s.len() < i + 2 {
        assert forall|j: int| i <= j implies !is_close_at(s, j) by {
            if is_close_at(s, j) {
                assert(0 <= j && j + 2 <= s.len());
            }
        }
    } else if is_close_at(s, i) {
    } else {
        lemma_find_close(s, i + 1);
    }
}

/// The position of the first character at or after `i` that is not marker
/// whitespace (or the end of the text).
pub open spec fn skip_ws(s: Seq<char>, i: int) -> int
    decreases s.len() - i,
{
    if i < 0 || s.len() <= i {
        i
    } else if is_marker_ws(s[i]) {
        skip_ws(s, i + 1)
    } else {
        i
    }
}

/// `skip_ws` skips exactly the run of whitespace that begins at `i`.
pub proof fn lemma_skip_ws(s: Seq<char>, i: int)
    requires
        0 <= i <= s.len(),
    ensures
        i <= skip_ws(s, i) <= s.len(),
        forall|j: int| i <= j < skip_ws(s, i) ==> is_marker_ws(s[j]),
        skip_ws(s, i) == s.len() || !is_marker_ws(s[skip_ws(s, i)]),
    decreases s.len() - i,
{
    if i < s.len() && is_marker_ws(s[i]) {
        lemma_skip_ws(s, i + 1);
    }
}

/// The first marker at or after position `p`: the leftmost opening token that
/// is followed (past the whitespace run after its colon) by a closing token.
/// When the leftmost opening token has no closing token after its content
/// start, no later opening token has one either, so the scan is over.
pub open spec fn next_marker(s: Seq<char>, p: int) -> Option<MarkerMatch> {
    match find_open(s, p) {
        None => None,
        Some(o) => {
            let cs = skip_ws(s, o + 11);
            match find_close(s, cs) {
                None => None,
                Some(ce) => Some(
                    MarkerMatch { start: o, content_start: cs, content_end: ce, end: ce + 2 },
                ),
            }
        },
    }
}

/// Bounds of a located marker: it lies within `s`, at or after the scan
/// position, and consumes at least the 13 characters of its two tokens.
pub proof fn lemma_next_marker(s: Seq<char>, p: int)
    requires
        0 <= p <= s.len(),
    ensures
        match next_marker(s, p) {
            Some(m) => {
                &&& p <= m.start
                &&& m.start + 11 <= m.content_start
                &&& m.content_start <= m.content_end
                &&& m.end == m.content_end + 2
                &&& m.end <= s.len()
                &&& p + 13 <= m.end
            },
            None => true,
        },
{
    lemma_find_open(s, p);
    match find_open(s, p) {
        None => {},
        Some(o) => {
            lemma_skip_ws(s, o + 11);
            let cs = skip_ws(s, o + 11);
            lemma_find_close(s, cs);
        },
    }
}

/// Decides the whitespace class at runtime.
fn marker_ws(c: char) -> (r: bool)
    ensures
        r == is_marker_ws(c),
{
    c == ' ' || c == '\t' || c == '\n' || c == '\r' || c == '\u{000B}' || c == '\u{000C}' || c
        == '\u{0085}' || c == '\u{00A0}' || c == '\u{1680}' || (0x2000 <= c as u32 && c as u32
        <= 0x200A) || c == '\u{2028}' || c == '\u{2029}' || c == '\u{202F}' || c == '\u{205F}' || c
        == '\u{3000}'
}

/// Tests for the opening token at position `i`.
fn open_at(s: &str, i: usize) -> (r: bool)
    requires
        i + 11 <= s@.len(),
        s@.len() <= usize::MAX,
    ensures
        r == is_open_at(s@, i as int),
{
    s.get_char(i) == '{' && s.get_char(i + 1) == '{' && s.get_char(i + 2) == 'f' && s.get_char(
        i + 3,
    ) == 'o' && s.get_char(i + 4) == 'o' && s.get_char(i + 5) == 't' && s.get_char(i + 6) == 'n'
        && s.get_char(i + 7) == 'o' && s.get_char(i + 8) == 't' && s.get_char(i + 9) == 'e'
        && s.get_char(i + 10) == ':'
}

/// Tests for the closing token at position `i`.
fn close_at(s: &str, i: usize) -> (r: bool)
    requires
        i + 2 <= s@.len(),
        s@.len() <= usize::MAX,
    ensures
        r == is_close_at(s@, i as int),
{
    s.get_char(i) == '}' && s.get_char(i + 1) == '}'
}

/// Finds the first opening token at or after `from`.
pub(crate) fn find_open_at(s: &str, from: usize) -> (r: Option<usize>)
    requires
        from <= s@.len(),
    ensures
        match r {
            Some(o) => {
                &&& find_open(s@, from as int) == Some(o as int)
                &&& from <= o
                &&& is_open_at(s@, o as int)
            },
            None => find_open(s@, from as int) is None,
        },
{
    let len = s.unicode_len();
    if len < 11 {
        return None;
    }
    let mut i: usize = from;
    while i <= len - 11
        invariant
            len == s@.len(),
            11 <= len,
            from <= i <= len,
            find_open(s@, from as int) == find_open(s@, i as int),
        decreases len - i,
    {
        if open_at(s, i) {
            return Some(i);
        }
        i += 1;
    }
    None
}

/// Finds the first closing token at or after `from`.
pub(crate) fn find_close_at(s: &str, from: usize) -> (r: Option<usize>)
    requires
        from <= s@.len(),
    ensures
        match r {
            Some(c) => {
                &&& find_close(s@, from as int) == Some(c as int)
                &&& from <= c
                &&& is_close_at(s@, c as int)
            },
            None => find_close(s@, from as int) is None,
        },
{
    let len = s.unicode_len();
    if len < 2 {
        return None;
    }
    let mut i: usize = from;
    while i <= len - 2
        invariant
            len == s@.len(),
            2 <= len,
            from <= i <= len,
            find_close(s@, from as int) == find_close(s@, i as int),
        decreases len - i,
    {
        if close_at(s, i) {
            return Some(i);
        }
        i += 1;
    }
    None
}

/// Skips the run of whitespace that begins at `from`.
pub(crate) fn skip_ws_at(s: &str, from: usize) -> (r: usize)
    requires
        from <= s@.len(),
    ensures
        r as int == skip_ws(s@, from as int),
        from <= r <= s@.len(),
{
    let len = s.unicode_len();
    let mut i: usize = from;
    while i < len && marker_ws(s.get_char(i))
        invariant
            len == s@.len(),
            from <= i <= len,
            skip_ws(s@, from as int) == skip_ws(s@, i as int),
        decreases len - i,
    {
        i += 1;
    }
    i
}

} // verus!
