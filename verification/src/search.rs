//! Find-in-note: the positions of a query in the editor's lines, and moving
//! between them.
use vstd::prelude::*;
use crate::editor::strings;
use crate::lower::{lowercase, to_lowercase};
use crate::text::{
    char_width, chars_of, find_from, find_from_exec, lemma_find_from, lemma_utf8_len_take_step,
    utf8_len,
};

verus! {

/// One match: its line and its character columns `[start_col, end_col)`.
#[derive(Debug, Clone, Copy, PartialEq, Eq, Structural)]
pub struct SearchMatch {
    pub line: usize,
    pub start_col: usize,
    pub end_col: usize,
}

/// The positions of the non-overlapping occurrences of `q` in `s` at or
/// after `from`, found from left to right.
pub open spec fn occurrences_from(s: Seq<char>, q: Seq<char>, from: int) -> Seq<int>
    decreases s.len() + 1 - from,
{
    if q.len() == 0 || from < 0 {
        Seq::empty()
    } else {
        match find_from(s, q, from) {
            Some(k) => {
                proof {
                    lemma_find_from(s, q, from);
                }
                seq![k] + occurrences_from(s, q, k + q.len())
            },
            None => Seq::empty(),
        }
    }
}

/// The character index of `line` that starts at byte `b`, if `b` is the start
/// of a character (or the end of the line).
pub open spec fn char_index_at_byte(line: Seq<char>, b: int) -> Option<int> {
    if exists|c: int| 0 <= c <= line.len() && utf8_len(line.take(c)) == b {
        Some(choose|c: int| 0 <= c <= line.len() && utf8_len(line.take(c)) == b)
    } else {
        None
    }
}

/// The text searched in: the line itself, or its lower-case form.
pub open spec fn search_text(s: Seq<char>, case_sensitive: bool) -> Seq<char> {
    if case_sensitive {
        s
    } else {
        lowercase(s)
    }
}

/// The byte offsets (in the searched text) of the matches in one line.
pub open spec fn match_bytes(line: Seq<char>, query: Seq<char>, case_sensitive: bool) -> Seq<int> {
    let s = search_text(line, case_sensitive);
    occurrences_from(s, search_text(query, case_sensitive), 0).map_values(
        |k: int| utf8_len(s.take(k)) as int,
    )
}

/// Whether every match byte offset falls on a character start of the line
/// itself (always so when case-sensitive; offsets found in the lower-case
/// form are applied to the line as it is).
pub open spec fn line_search_ok(line: Seq<char>, query: Seq<char>, case_sensitive: bool) -> bool {
    forall|m: int|
        0 <= m < match_bytes(line, query, case_sensitive).len() ==> char_index_at_byte(
            line,
            #[trigger] match_bytes(line, query, case_sensitive)[m],
        ) is Some
}

/// The matches of one line: the line's character column at each match's byte
/// offset, spanning as many characters as the query has.
pub open spec fn line_matches(li: int, line: Seq<char>, query: Seq<char>, case_sensitive: bool) -> Seq<(int, int, int)> {
    match_bytes(line, query, case_sensitive).map_values(
        |b: int|
            {
                let c = char_index_at_byte(line, b)->0;
                (li, c, c + query.len())
            },
    )
}

/// The matches of the first `n` lines, in order.
pub open spec fn matches_upto(lines: Seq<Seq<char>>, query: Seq<char>, case_sensitive: bool, n: nat) -> Seq<(int, int, int)>
    decreases n,
{
    if n == 0 || query.len() == 0 {
        Seq::empty()
    } else {
        matches_upto(lines, query, case_sensitive, (n - 1) as nat) + line_matches(
            n - 1,
            lines[n - 1],
            query,
            case_sensitive,
        )
    }
}

/// The view of a match.
pub open spec fn match_view(m: SearchMatch) -> (int, int, int) {
    (m.line as int, m.start_col as int, m.end_col as int)
}

} // verus!

verus! {

/// Longer prefixes have more bytes.
proof fn lemma_utf8_prefix_strict(s: Seq<char>, c1: int, c2: int)
    requires
        0 <= c1 < c2 <= s.len(),
    ensures
        utf8_len(s.take(c1)) < utf8_len(s.take(c2)),
    decreases c2 - c1,
{
    lemma_utf8_len_take_step(s, c2 - 1);
    if c1 < c2 - 1 {
        lemma_utf8_prefix_strict(s, c1, c2 - 1);
    }
}

/// The byte offset of character `k` of `s`.
fn byte_offset(s: &[char], k: usize) -> (b: usize)
    requires
        k <= s.len(),
        crate::text::fits(s@),
    ensures
        b == utf8_len(s@.take(k as int)),
{
    let mut b: usize = 0;
    let mut i: usize = 0;
    while i < k
        invariant
            i <= k <= s.len(),
            b == utf8_len(s@.take(i as int)),
            crate::text::fits(s@),
        decreases k - i,
    {
        proof {
            lemma_utf8_len_take_step(s@, i as int);
            crate::text::lemma_utf8_len_take_le(s@, i + 1);
        }
        b = b + char_width(s[i]);
        i = i + 1;
    }
    b
}

/// The character index of `line` that starts at byte `b`, if any.
fn char_index_at_byte_exec(line: &[char], b: usize) -> (r: Option<usize>)
    requires
        crate::text::fits(line@),
    ensures
        match r {
            Some(c) => char_index_at_byte(line@, b as int) == Some(c as int) && c <= line.len(),
            None => char_index_at_byte(line@, b as int) is None,
        },
{
    let mut acc: usize = 0;
    let mut c: usize = 0;
    while acc < b && c < line.len()
        invariant
            c <= line.len(),
            acc == utf8_len(line@.take(c as int)),
            c == 0 || utf8_len(line@.take(c - 1)) < b,
            crate::text::fits(line@),
        decreases line.len() - c,
    {
        proof {
            lemma_utf8_len_take_step(line@, c as int);
            crate::text::lemma_utf8_len_take_le(line@, c + 1);
        }
        acc = acc + char_width(line[c]);
        c = c + 1;
    }
    if acc == b {
        proof {
            assert(utf8_len(line@.take(c as int)) == b);
            let w = choose|x: int| 0 <= x <= line@.len() && utf8_len(line@.take(x)) == b;
            if w < c {
                lemma_utf8_prefix_strict(line@, w, c as int);
            } else if w > c {
                lemma_utf8_prefix_strict(line@, c as int, w);
            }
            assert(w == c);
        }
        Some(c)
    } else {
        proof {
            if exists|x: int| 0 <= x <= line@.len() && utf8_len(line@.take(x)) == b {
                let w = choose|x: int| 0 <= x <= line@.len() && utf8_len(line@.take(x)) == b;
                if w < c {
                    if w < c - 1 {
                        lemma_utf8_prefix_strict(line@, w, c - 1);
                    }
                } else if w > c {
                    lemma_utf8_prefix_strict(line@, c as int, w);
                }
                assert(false);
            }
        }
        None
    }
}

/// The matches of one line.
fn line_matches_exec(li: usize, line: &str, q: &[char], q_count: usize, case_sensitive: bool, query: Ghost<Seq<char>>) -> (r: Option<Vec<SearchMatch>>)
    requires
        q@ == search_text(query@, case_sensitive),
        q@.len() > 0,
        q_count == query@.len(),
        crate::text::fits(line@),
        line@.len() + q_count <= usize::MAX,
    ensures
        r is Some <==> line_search_ok(line@, query@, case_sensitive),
        r matches Some(v) ==> v@.map_values(|m: SearchMatch| match_view(m)) == line_matches(li as int, line@, query@, case_sensitive),
{
    let chars = chars_of(line);
    let s = if case_sensitive {
        chars_of(line)
    } else {
        let low = to_lowercase(line);
        chars_of(low.as_str())
    };
    assert(s@ == search_text(line@, case_sensitive));
    let ghost occ = occurrences_from(s@, q@, 0);
    let ghost bytes = match_bytes(line@, query@, case_sensitive);
    let mut out: Vec<SearchMatch> = Vec::new();
    let mut start: usize = 0;
    let ghost mut n: int = 0;
    loop
        invariant
            s@ == search_text(line@, case_sensitive),
            chars@ == line@,
            crate::text::fits(s@),
            crate::text::fits(line@),
            q@.len() > 0,
            q@ == search_text(query@, case_sensitive),
            q_count == query@.len(),
            start <= s.len() + 1,
            line@.len() + q_count <= usize::MAX,
            bytes.len() == occ.len(),
            forall|m: int| 0 <= m < n ==> char_index_at_byte(line@, #[trigger] bytes[m]) is Some,
            occ == occurrences_from(s@, q@, 0),
            bytes == match_bytes(line@, query@, case_sensitive),
            0 <= n <= occ.len(),
            occ.skip(n) == occurrences_from(s@, q@, start as int),
            out@.map_values(|m: SearchMatch| match_view(m)) == line_matches(li as int, line@, query@, case_sensitive).take(n),
        ensures
            n == occ.len(),
            occ == occurrences_from(s@, q@, 0),
            bytes == match_bytes(line@, query@, case_sensitive),
            forall|m: int| 0 <= m < n ==> char_index_at_byte(line@, #[trigger] bytes[m]) is Some,
            out@.map_values(|m: SearchMatch| match_view(m)) == line_matches(li as int, line@, query@, case_sensitive).take(n),
        decreases s.len() + 1 - start,
    {
        proof {
            lemma_find_from(s@, q@, start as int);
            crate::text::lemma_fits_subrange(s@, 0, s@.len() as int);
        }
        if start > s.len() {
            assert(occurrences_from(s@, q@, start as int).len() == 0);
            assert(occ.skip(n).len() == 0);
            break;
        }
        match find_from_exec(&s, q, start) {
            Some(k) => {
                assert(occurrences_from(s@, q@, start as int) == seq![k as int] + occurrences_from(
                    s@,
                    q@,
                    k + q@.len(),
                ));
                assert(occ.skip(n).len() > 0);
                assert(occ.skip(n)[0] == k);
                assert(occ[n] == k);
                let b = byte_offset(&s, k);
                assert(bytes[n] == b);
                let c = match char_index_at_byte_exec(&chars, b) {
                    Some(c) => c,
                    None => {
                        assert(!line_search_ok(line@, query@, case_sensitive));
                        return None;
                    },
                };
                let m = SearchMatch { line: li, start_col: c, end_col: c + q_count };
                proof {
                    let rest = occurrences_from(s@, q@, k + q@.len());
                    assert(occ.skip(n + 1) == occ.skip(n).drop_first());
                    assert((seq![k as int] + rest).drop_first() == rest);
                    assert(occ.skip(n + 1) == rest);
                    let lm = line_matches(li as int, line@, query@, case_sensitive);
                    assert(lm[n] == match_view(m));
                    assert(lm.take(n + 1) == lm.take(n).push(match_view(m)));
                    assert(out@.push(m).map_values(|m: SearchMatch| match_view(m)) == out@.map_values(
                        |m: SearchMatch| match_view(m),
                    ).push(match_view(m)));
                    n = n + 1;
                }
                out.push(m);
                start = k + q.len();
            },
            None => {
                assert(occurrences_from(s@, q@, start as int).len() == 0);
                assert(occ.skip(n).len() == 0);
                break;
            },
        }
    }
    proof {
        let lm = line_matches(li as int, line@, query@, case_sensitive);
        assert(n == occ.len());
        assert(lm.take(n) == lm);
    }
    Some(out)
}

} // verus!

verus! {

/// The views of a list of matches.
pub open spec fn match_views(v: Seq<SearchMatch>) -> Seq<(int, int, int)> {
    v.map_values(|m: SearchMatch| match_view(m))
}

/// Whether searching every line slices no line off a character boundary.
pub open spec fn search_ok(lines: Seq<Seq<char>>, query: Seq<char>, case_sensitive: bool) -> bool {
    forall|k: int| 0 <= k < lines.len() ==> line_search_ok(#[trigger] lines[k], query, case_sensitive)
}

/// The matches of every line, or `None` where some line's match offset is
/// not a character boundary of the line.
fn search_all(lines: &Vec<String>, query: &str, case_sensitive: bool) -> (r: Option<Vec<SearchMatch>>)
    requires
        crate::text::fits(query@),
        forall|k: int| 0 <= k < lines.len() ==> crate::text::fits(#[trigger] strings(lines@)[k]),
    ensures
        r is Some <==> (query@.len() == 0 || search_ok(strings(lines@), query@, case_sensitive)),
        r matches Some(v) ==> match_views(v@) == matches_upto(strings(lines@), query@, case_sensitive, lines.len() as nat),
{
    let mut out: Vec<SearchMatch> = Vec::new();
    let qv = chars_of(query);
    if qv.len() == 0 {
        return Some(out);
    }
    let q = if case_sensitive {
        chars_of(query)
    } else {
        let low = to_lowercase(query);
        chars_of(low.as_str())
    };
    assert(q@ == search_text(query@, case_sensitive));
    let ghost ls = strings(lines@);
    proof {
        crate::text::lemma_fits_subrange(query@, 0, query@.len() as int);
    }
    let mut li: usize = 0;
    while li < lines.len()
        invariant
            ls == strings(lines@),
            li <= lines.len(),
            q@ == search_text(query@, case_sensitive),
            q@.len() > 0,
            qv@ == query@,
            query@.len() > 0,
            query@.len() <= isize::MAX,
            forall|k: int| 0 <= k < lines.len() ==> crate::text::fits(#[trigger] ls[k]),
            forall|k: int| 0 <= k < li ==> line_search_ok(#[trigger] ls[k], query@, case_sensitive),
            match_views(out@) == matches_upto(ls, query@, case_sensitive, li as nat),
        decreases lines.len() - li,
    {
        assert(ls[li as int] == lines@[li as int]@);
        assert(crate::text::fits(ls[li as int]));
        proof {
            crate::text::lemma_fits_subrange(ls[li as int], 0, ls[li as int].len() as int);
        }
        match line_matches_exec(li, lines[li].as_str(), &q, qv.len(), case_sensitive, Ghost(query@)) {
            Some(v) => {
                let mut j: usize = 0;
                let ghost base = out@;
                while j < v.len()
                    invariant
                        j <= v.len(),
                        out@ == base + v@.take(j as int),
                    decreases v.len() - j,
                {
                    out.push(v[j]);
                    j = j + 1;
                    assert(v@.take(j as int) == v@.take(j - 1).push(v@[j - 1]));
                }
                proof {
                    assert(v@.take(v.len() as int) == v@);
                    assert(match_views(base + v@) == match_views(base) + match_views(v@));
                }
            },
            None => {
                assert(!line_search_ok(ls[li as int], query@, case_sensitive));
                return None;
            },
        }
        assert(matches_upto(ls, query@, case_sensitive, (li + 1) as nat) == matches_upto(
            ls,
            query@,
            case_sensitive,
            li as nat,
        ) + line_matches(li as int, ls[li as int], query@, case_sensitive));
        li = li + 1;
    }
    Some(out)
}

/// All matches of `query` in the lines, line by line and left to right
/// (non-overlapping): each gives its line, the character column where it
/// starts and that column plus the query's length. When not case-sensitive,
/// lines and query are compared in lower case. An empty query has no
/// matches. Every match offset must fall on a character boundary of its line
/// (always so when case-sensitive).
pub fn find_search_matches(lines: &Vec<String>, query: &str, case_sensitive: bool) -> (r: Vec<SearchMatch>)
    requires
        crate::text::fits(query@),
        forall|k: int| 0 <= k < lines.len() ==> crate::text::fits(#[trigger] strings(lines@)[k]),
        query@.len() == 0 || search_ok(strings(lines@), query@, case_sensitive),
    ensures
        match_views(r@) == matches_upto(strings(lines@), query@, case_sensitive, lines.len() as nat),
{
    match search_all(lines, query, case_sensitive) {
        Some(v) => v,
        None => Vec::new(),
    }
}

/// Finds the matches as `find_search_matches` does, or returns `None` where
/// some match offset is not a character boundary of its line.
pub fn try_find_search_matches(lines: &Vec<String>, query: &str, case_sensitive: bool) -> (r: Option<Vec<SearchMatch>>)
    requires
        crate::text::fits(query@),
        forall|k: int| 0 <= k < lines.len() ==> crate::text::fits(#[trigger] strings(lines@)[k]),
    ensures
        r is Some <==> (query@.len() == 0 || search_ok(strings(lines@), query@, case_sensitive)),
        r matches Some(v) ==> match_views(v@) == matches_upto(strings(lines@), query@, case_sensitive, lines.len() as nat),
{
    match search_all(lines, query, case_sensitive) {
        Some(_) => Some(find_search_matches(lines, query, case_sensitive)),
        None => None,
    }
}

/// The match after `index`, wrapping to the first; `None` without matches.
pub open spec fn next_index(index: int, count: int) -> Option<int> {
    if count == 0 {
        None
    } else if index + 1 >= count {
        Some(0)
    } else {
        Some(index + 1)
    }
}

/// The match before `index`, wrapping to the last; `None` without matches.
pub open spec fn prev_index(index: int, count: int) -> Option<int> {
    if count == 0 {
        None
    } else if index == 0 {
        Some(count - 1)
    } else {
        Some(index - 1)
    }
}

/// The index of the next search match (wrapping around).
pub fn search_next(index: usize, count: usize) -> (r: Option<usize>)
    requires
        index < usize::MAX,
    ensures
        match r {
            Some(i) => next_index(index as int, count as int) == Some(i as int),
            None => next_index(index as int, count as int) is None,
        },
{
    if count == 0 {
        None
    } else if index + 1 >= count {
        Some(0)
    } else {
        Some(index + 1)
    }
}

/// The index of the previous search match (wrapping around).
pub fn search_prev(index: usize, count: usize) -> (r: Option<usize>)
    ensures
        match r {
            Some(i) => prev_index(index as int, count as int) == Some(i as int),
            None => prev_index(index as int, count as int) is None,
        },
{
    if count == 0 {
        None
    } else if index == 0 {
        Some(count - 1)
    } else {
        Some(index - 1)
    }
}

/// Stepping to the next match and back returns to the same match, and so
/// does stepping back and then forward.
pub proof fn law_search_next_prev(index: int, count: int)
    requires
        0 <= index < count,
    ensures
        prev_index(next_index(index, count)->0, count) == Some(index),
        next_index(prev_index(index, count)->0, count) == Some(index),
{
}

} // verus!
