//! Removing inline markdown formatting from one line.
use vstd::prelude::*;
use crate::text::{
    chars_of, extend_chars, find, find_char_from, find_char_from_exec, find_from, find_from_exec,
    lemma_find_from, string_of, sub_chars,
};

verus! {

/// The closing colour tag `{/c}`.
pub open spec fn close_color_tag() -> Seq<char> {
    seq!['{', '/', 'c', '}']
}

/// A colour tag `{c:..}text{/c}` at `i`: the index of the `}` ending the
/// opening tag and the number of characters between it and `{/c}`.
pub open spec fn color_tag_at(s: Seq<char>, i: int) -> Option<(int, int)> {
    if 0 <= i && i + 3 < s.len() && s[i] == '{' && s[i + 1] == 'c' && s[i + 2] == ':' {
        match find_char_from(s, '}', i + 3) {
            Some(te) => match find(s.skip(te + 1), close_color_tag()) {
                Some(k) => Some((te, k)),
                None => None,
            },
            None => None,
        }
    } else {
        None
    }
}

/// Bold `**text**` at `i`: the index of the closing `**`.
pub open spec fn bold_at(s: Seq<char>, i: int) -> Option<int> {
    if 0 <= i && i + 1 < s.len() && s[i] == '*' && s[i + 1] == '*' {
        find_from(s, seq!['*', '*'], i + 2)
    } else {
        None
    }
}

/// Italic `*text*` at `i` (single asterisks): the index of the closing `*`.
pub open spec fn italic_at(s: Seq<char>, i: int) -> Option<int> {
    if 0 <= i < s.len() && s[i] == '*' && (i == 0 || s[i - 1] != '*') && (i + 1 >= s.len() || s[i
        + 1] != '*') {
        match find_char_from(s, '*', i + 1) {
            Some(end) => if end + 1 >= s.len() || s[end + 1] != '*' {
                Some(end)
            } else {
                None
            },
            None => None,
        }
    } else {
        None
    }
}

/// Inline code `` `text` `` at `i`: the index of the closing backtick.
pub open spec fn code_at(s: Seq<char>, i: int) -> Option<int> {
    if 0 <= i < s.len() && s[i] == '`' {
        find_char_from(s, '`', i + 1)
    } else {
        None
    }
}

/// A link `[text](url)` at `i`: the indices of `]` and of the closing `)`.
pub open spec fn link_at(s: Seq<char>, i: int) -> Option<(int, int)> {
    if 0 <= i < s.len() && s[i] == '[' {
        match find_char_from(s, ']', i + 1) {
            Some(be) => if be + 1 < s.len() && s[be + 1] == '(' {
                match find_char_from(s, ')', be + 2) {
                    Some(pe) => Some((be, pe)),
                    None => None,
                }
            } else {
                None
            },
            None => None,
        }
    } else {
        None
    }
}

/// The formatted span that starts at `i`, if any: its content `[a, b)`, the
/// position after its closing marker, and whether the content is itself
/// stripped (everything but inline code, which is kept verbatim).
pub open spec fn span_at(s: Seq<char>, i: int) -> Option<(int, int, int, bool)> {
    if let Some((te, k)) = color_tag_at(s, i) {
        Some((te + 1, te + 1 + k, te + 1 + k + 4, true))
    } else if let Some(end) = bold_at(s, i) {
        Some((i + 2, end, end + 2, true))
    } else if let Some(end) = italic_at(s, i) {
        Some((i + 1, end, end + 1, true))
    } else if let Some(end) = code_at(s, i) {
        Some((i + 1, end, end + 1, false))
    } else if let Some((be, pe)) = link_at(s, i) {
        Some((i + 1, be, pe + 1, true))
    } else {
        None
    }
}

/// A span lies inside the line, after its start.
pub proof fn lemma_span_bounds(s: Seq<char>, i: int)
    requires
        0 <= i < s.len(),
    ensures
        span_at(s, i) matches Some((a, b, n, nested)) ==> i < a <= b <= s.len() && i < n
            <= s.len() && b < n,
{
    lemma_find_from(s, seq!['}'], i + 3);
    lemma_find_from(s, seq!['*', '*'], i + 2);
    lemma_find_from(s, seq!['*'], i + 1);
    lemma_find_from(s, seq!['`'], i + 1);
    lemma_find_from(s, seq![']'], i + 1);
    if let Some(te) = find_char_from(s, '}', i + 3) {
        lemma_find_from(s.skip(te + 1), close_color_tag(), 0);
    }
    if let Some(be) = find_char_from(s, ']', i + 1) {
        lemma_find_from(s, seq![')'], be + 2);
    }
}

/// The text of a line from position `i` on with inline formatting removed:
/// a colour tag, `**bold**`, `*italic*` or `[link](url)` gives its text,
/// itself stripped; `` `code` `` gives its text as it stands; every other
/// character is kept.
pub open spec fn strip_from(s: Seq<char>, i: int) -> Seq<char>
    decreases s.len(), s.len() - i,
{
    if i < 0 || i >= s.len() {
        Seq::empty()
    } else {
        proof {
            lemma_span_bounds(s, i);
        }
        match span_at(s, i) {
            Some((a, b, n, nested)) => {
                let inner = if nested {
                    strip_from(s.subrange(a, b), 0)
                } else {
                    s.subrange(a, b)
                };
                inner + strip_from(s, n)
            },
            None => seq![s[i]] + strip_from(s, i + 1),
        }
    }
}

/// The line with all inline formatting removed.
pub open spec fn stripped(s: Seq<char>) -> Seq<char> {
    strip_from(s, 0)
}

/// Whether a character can open inline formatting: `{`, `*`, `` ` `` or `[`.
pub open spec fn is_marker(c: char) -> bool {
    c == '{' || c == '*' || c == '`' || c == '['
}

/// From a position on, a line without formatting markers is kept as it is.
proof fn lemma_strip_plain_from(s: Seq<char>, i: int)
    requires
        0 <= i <= s.len(),
        forall|k: int| 0 <= k < s.len() ==> !is_marker(#[trigger] s[k]),
    ensures
        strip_from(s, i) == s.skip(i),
    decreases s.len() - i,
{
    if i < s.len() {
        assert(!is_marker(s[i]));
        assert(span_at(s, i) is None);
        lemma_strip_plain_from(s, i + 1);
        assert(s.skip(i) =~= seq![s[i]] + s.skip(i + 1));
    } else {
        assert(s.skip(i) =~= Seq::<char>::empty());
    }
}

/// A line without formatting markers comes back unchanged.
pub proof fn law_strip_plain_unchanged(s: Seq<char>)
    requires
        forall|k: int| 0 <= k < s.len() ==> !is_marker(#[trigger] s[k]),
    ensures
        stripped(s) == s,
{
    lemma_strip_plain_from(s, 0);
    assert(s.skip(0) =~= s);
}

/// Stripping from a position on gives at most the characters left there.
proof fn lemma_strip_len(s: Seq<char>, i: int)
    requires
        0 <= i <= s.len(),
    ensures
        strip_from(s, i).len() <= s.len() - i,
    decreases s.len(), s.len() - i,
{
    if i < s.len() {
        lemma_span_bounds(s, i);
        match span_at(s, i) {
            Some((a, b, n, nested)) => {
                if nested {
                    lemma_strip_len(s.subrange(a, b), 0);
                }
                lemma_strip_len(s, n);
            },
            None => {
                lemma_strip_len(s, i + 1);
            },
        }
    }
}

/// Stripping never makes a line longer.
pub proof fn law_strip_not_longer(s: Seq<char>)
    ensures
        stripped(s).len() <= s.len(),
{
    lemma_strip_len(s, 0);
}

/// Strips bold, italic, code, colour tags and links from a line, keeping
/// their text; formatting nested inside bold, italic, a colour tag or a
/// link's text is stripped too.
pub fn strip_all_formatting(line: &str) -> (r: String)
    ensures
        r@ == stripped(line@),
{
    let chars = chars_of(line);
    let out = strip_chars(&chars);
    string_of(&out)
}

/// Stripping on a character vector.
fn strip_chars(chars: &Vec<char>) -> (r: Vec<char>)
    ensures
        r@ == strip_from(chars@, 0),
    decreases chars@.len(),
{
    let len = chars.len();
    let mut result: Vec<char> = Vec::new();
    let mut i: usize = 0;
    while i < len
        invariant
            len == chars@.len(),
            i <= len,
            strip_from(chars@, 0) == result@ + strip_from(chars@, i as int),
        decreases len - i,
    {
        let ghost s = chars@;
        proof {
            lemma_span_bounds(s, i as int);
        }
        match span_exec(chars, i) {
            Some((a, b, n, nested)) => {
                let inner = sub_chars(chars, a, b);
                let out = if nested {
                    strip_chars(&inner)
                } else {
                    inner
                };
                proof {
                    assert(strip_from(s, i as int) == out@ + strip_from(s, n as int));
                    assert(result@ + (out@ + strip_from(s, n as int)) == (result@ + out@)
                        + strip_from(s, n as int));
                }
                extend_chars(&mut result, &out);
                i = n;
            },
            None => {
                proof {
                    assert(strip_from(s, i as int) == seq![s[i as int]] + strip_from(
                        s,
                        i + 1,
                    ));
                    assert(result@ + (seq![s[i as int]] + strip_from(s, i + 1)) == result@.push(
                        s[i as int],
                    ) + strip_from(s, i + 1));
                }
                result.push(chars[i]);
                i = i + 1;
            },
        }
    }
    assert(result@ + Seq::<char>::empty() == result@);
    result
}

/// The span at `i`, computed.
fn span_exec(chars: &Vec<char>, i: usize) -> (r: Option<(usize, usize, usize, bool)>)
    requires
        i < chars.len(),
    ensures
        match r {
            Some((a, b, n, nested)) => span_at(chars@, i as int) == Some(
                (a as int, b as int, n as int, nested),
            ),
            None => span_at(chars@, i as int) is None,
        },
{
    let ghost s = chars@;
    let len = chars.len();
    proof {
        lemma_find_from(s, seq!['}'], i + 3);
        lemma_find_from(s, seq!['*', '*'], i + 2);
        lemma_find_from(s, seq!['*'], i + 1);
        lemma_find_from(s, seq!['`'], i + 1);
        lemma_find_from(s, seq![']'], i + 1);
    }
    if len - i > 3 && chars[i] == '{' && chars[i + 1] == 'c' && chars[i + 2] == ':' {
        if let Some(te) = find_char_from_exec(chars, '}', i + 3) {
            let remaining = sub_chars(chars, te + 1, len);
            assert(remaining@ == s.skip(te + 1));
            let close = vec!['{', '/', 'c', '}'];
            assert(close@ == close_color_tag());
            if let Some(k) = find_from_exec(&remaining, &close, 0) {
                proof {
                    lemma_find_from(remaining@, close@, 0);
                }
                assert(color_tag_at(s, i as int) == Some((te as int, k as int)));
                return Some((te + 1, te + 1 + k, te + 1 + k + 4, true));
            }
        }
    }
    assert(color_tag_at(s, i as int) is None);
    if i + 1 < len && chars[i] == '*' && chars[i + 1] == '*' {
        if let Some(end) = find_from_exec(chars, &['*', '*'], i + 2) {
            return Some((i + 2, end, end + 2, true));
        }
    }
    assert(bold_at(s, i as int) is None);
    if chars[i] == '*' && (i == 0 || chars[i - 1] != '*') && (i + 1 >= len || chars[i + 1] != '*') {
        if let Some(end) = find_char_from_exec(chars, '*', i + 1) {
            if end + 1 >= len || chars[end + 1] != '*' {
                return Some((i + 1, end, end + 1, true));
            }
        }
    }
    assert(italic_at(s, i as int) is None);
    if chars[i] == '`' {
        if let Some(end) = find_char_from_exec(chars, '`', i + 1) {
            return Some((i + 1, end, end + 1, false));
        }
    }
    assert(code_at(s, i as int) is None);
    if chars[i] == '[' {
        if let Some(be) = find_char_from_exec(chars, ']', i + 1) {
            if be + 1 < len && chars[be + 1] == '(' {
                proof {
                    lemma_find_from(s, seq![')'], be + 2);
                }
                if let Some(pe) = find_char_from_exec(chars, ')', be + 2) {
                    return Some((i + 1, be, pe + 1, true));
                }
            }
        }
    }
    assert(link_at(s, i as int) is None);
    None
}

} // verus!
