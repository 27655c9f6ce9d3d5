//! Line-oriented editing commands of the markdown editor: list renumbering,
//! line prefixes, inline markers, checkboxes and indentation.
use vstd::prelude::*;
use crate::size::{decimal, push_decimal};
use crate::text::{
    chars_of, ends_with, ends_with_exec, extend_chars, find, find_from_exec, leading_ws,
    leading_ws_count, lemma_find_from, lemma_len_le_utf8_len, lemma_utf8_len_concat, starts_with,
    starts_with_exec, string_of, sub_chars, trim_start, utf8_len, utf8_len_of,
};

verus! {

/// The character views of a list of lines.
pub open spec fn strings(v: Seq<String>) -> Seq<Seq<char>> {
    v.map_values(|s: String| s@)
}

/// The leading white space of a line.
pub open spec fn leading(line: Seq<char>) -> Seq<char> {
    line.take(leading_ws(line) as int)
}

/// Whether the first `d` characters are ASCII digits.
pub open spec fn all_digits(t: Seq<char>, d: int) -> bool {
    forall|k: int| 0 <= k < d ==> '0' <= #[trigger] t[k] <= '9'
}

/// A numbered list item `<indent><digits>. <text>`: the position of `. ` in
/// the line without its indent.
pub open spec fn numbered(line: Seq<char>) -> Option<int> {
    let t = trim_start(line);
    match find(t, seq!['.', ' ']) {
        Some(d) => if d > 0 && all_digits(t, d) {
            Some(d)
        } else {
            None
        },
        None => None,
    }
}

/// A numbered item given the number `num`.
pub open spec fn renumbered(line: Seq<char>, num: nat) -> Seq<char> {
    leading(line) + decimal(num) + trim_start(line).skip(numbered(line)->0)
}

/// The first line of the run of numbered items that ends just before `from`.
pub open spec fn run_start(lines: Seq<Seq<char>>, from: int) -> int
    decreases from,
{
    if from > 0 && from <= lines.len() && numbered(lines[from - 1]) is Some {
        run_start(lines, from - 1)
    } else {
        from
    }
}

/// The end (exclusive) of the run of numbered items starting at `start`.
pub open spec fn run_end(lines: Seq<Seq<char>>, start: int) -> int
    decreases lines.len() - start,
{
    if 0 <= start < lines.len() && numbered(lines[start]) is Some {
        run_end(lines, start + 1)
    } else {
        start
    }
}

/// `run_start` stays within `[0, from]` and every line between is numbered.
proof fn lemma_run_start(lines: Seq<Seq<char>>, from: int)
    requires
        0 <= from <= lines.len(),
    ensures
        0 <= run_start(lines, from) <= from,
        forall|k: int|
            run_start(lines, from) <= k < from ==> numbered(#[trigger] lines[k]) is Some,
    decreases from,
{
    if from > 0 && numbered(lines[from - 1]) is Some {
        lemma_run_start(lines, from - 1);
    }
}

/// `run_end` stays within `[start, len]`.
proof fn lemma_run_end(lines: Seq<Seq<char>>, start: int)
    requires
        0 <= start <= lines.len(),
    ensures
        start <= run_end(lines, start) <= lines.len(),
        forall|k: int|
            start <= k < run_end(lines, start) ==> numbered(#[trigger] lines[k]) is Some,
    decreases lines.len() - start,
{
    if start < lines.len() && numbered(lines[start]) is Some {
        lemma_run_end(lines, start + 1);
    }
}

/// Whether a line is a numbered item; and where its `. ` is.
fn numbered_exec(line: &[char]) -> (r: Option<(usize, usize)>)
    ensures
        match r {
            Some((lead, d)) => numbered(line@) == Some(d as int) && lead == leading_ws(line@) && lead
                + d <= line.len(),
            None => numbered(line@) is None,
        },
{
    let lead = leading_ws_count(line);
    let t = sub_chars(line, lead, line.len());
    let dot = ['.', ' '];
    assert(dot@ == seq!['.', ' ']);
    assert(t@ == trim_start(line@));
    proof {
        lemma_find_from(t@, dot@, 0);
    }
    match find_from_exec(&t, &dot, 0) {
        Some(d) => {
            assert(find(trim_start(line@), seq!['.', ' ']) == Some(d as int));
            if d == 0 {
                return None;
            }
            let mut k: usize = 0;
            while k < d
                invariant
                    k <= d,
                    d <= t.len(),
                    t@ == trim_start(line@),
                    find(trim_start(line@), seq!['.', ' ']) == Some(d as int),
                    forall|j: int| 0 <= j < k ==> '0' <= #[trigger] t@[j] <= '9',
                decreases d - k,
            {
                if !('0' <= t[k] && t[k] <= '9') {
                    assert(!all_digits(t@, d as int));
                    return None;
                }
                k = k + 1;
            }
            Some((lead, d))
        },
        None => None,
    }
}

/// The lines after renumbering the run of numbered items around `from`.
pub open spec fn renumber_spec(ls: Seq<Seq<char>>, from: int) -> Seq<Seq<char>> {
    let s = run_start(ls, from);
    let e = run_end(ls, s);
    Seq::new(
        ls.len(),
        |k: int|
            if s <= k < e {
                renumbered(ls[k], (k - s + 1) as nat)
            } else {
                ls[k]
            },
    )
}

/// `run_start` stops at the first line or after a line that is no item.
proof fn lemma_run_start_stops(lines: Seq<Seq<char>>, from: int)
    requires
        0 <= from <= lines.len(),
    ensures
        run_start(lines, from) == 0 || numbered(lines[run_start(lines, from) - 1]) is None,
    decreases from,
{
    if from > 0 && numbered(lines[from - 1]) is Some {
        lemma_run_start_stops(lines, from - 1);
    }
}

/// `run_start` is the start of any run of items that reaches `from` and
/// begins at the first line or after a line that is no item.
proof fn lemma_run_start_is(lines: Seq<Seq<char>>, a: int, from: int)
    requires
        0 <= a <= from <= lines.len(),
        forall|k: int| a <= k < from ==> numbered(#[trigger] lines[k]) is Some,
        a == 0 || numbered(lines[a - 1]) is None,
    ensures
        run_start(lines, from) == a,
    decreases from,
{
    if from > a {
        lemma_run_start_is(lines, a, from - 1);
    }
}

/// `run_end` stops at the last line or before a line that is no item.
proof fn lemma_run_end_stops(lines: Seq<Seq<char>>, start: int)
    requires
        0 <= start <= lines.len(),
    ensures
        run_end(lines, start) == lines.len() || numbered(lines[run_end(lines, start)]) is None,
    decreases lines.len() - start,
{
    if start < lines.len() && numbered(lines[start]) is Some {
        lemma_run_end_stops(lines, start + 1);
    }
}

/// `run_end` reaches past every item that follows `start` without a gap.
proof fn lemma_run_end_reaches(lines: Seq<Seq<char>>, start: int, b: int)
    requires
        0 <= start <= b <= lines.len(),
        forall|k: int| start <= k < b ==> numbered(#[trigger] lines[k]) is Some,
    ensures
        run_end(lines, start) >= b,
    decreases b - start,
{
    lemma_run_end(lines, start);
    if start < b {
        assert(numbered(lines[start]) is Some);
        lemma_run_end_reaches(lines, start + 1, b);
    }
}

/// `run_end` is the end of a run of items that stops at the last line or
/// before a line that is no item.
proof fn lemma_run_end_is(lines: Seq<Seq<char>>, start: int, b: int)
    requires
        0 <= start <= b <= lines.len(),
        forall|k: int| start <= k < b ==> numbered(#[trigger] lines[k]) is Some,
        b == lines.len() || numbered(lines[b]) is None,
    ensures
        run_end(lines, start) == b,
    decreases b - start,
{
    if start < b {
        lemma_run_end_is(lines, start + 1, b);
    }
}

/// Digits followed by `. `: an item whose `. ` comes right after the
/// digits.
proof fn lemma_digits_then_dot(dec: Seq<char>, rest: Seq<char>)
    requires
        dec.len() > 0,
        all_digits(dec, dec.len() as int),
        rest.len() >= 2,
        rest[0] == '.',
        rest[1] == ' ',
    ensures
        find(dec + rest, seq!['.', ' ']) == Some(dec.len() as int),
        all_digits(dec + rest, dec.len() as int),
{
    let u = dec + rest;
    let m = dec.len() as int;
    assert(u.subrange(m, m + 2) =~= seq!['.', ' ']);
    assert(crate::text::matches_at(u, seq!['.', ' '], m));
    lemma_find_from(u, seq!['.', ' '], 0);
    assert forall|j: int| 0 <= j < m implies !crate::text::matches_at(u, seq!['.', ' '], j) by {
        assert(u[j] == dec[j]);
        assert('0' <= dec[j] <= '9');
        if j + 2 <= u.len() {
            assert(u.subrange(j, j + 2)[0] == u[j]);
        }
    }
    assert forall|k: int| 0 <= k < m implies '0' <= #[trigger] u[k] <= '9' by {
        assert(u[k] == dec[k]);
    }
}

/// The indent of a renumbered item is the item's indent, and after it come
/// the new number and the item's text.
proof fn lemma_renumbered_parts(line: Seq<char>, n: nat)
    requires
        numbered(line) is Some,
    ensures
        leading(renumbered(line, n)) == leading(line),
        trim_start(renumbered(line, n)) == decimal(n) + trim_start(line).skip(numbered(line)->0),
{
    let lw = leading_ws(line) as int;
    let dec = decimal(n);
    let rest = trim_start(line).skip(numbered(line)->0);
    let r = renumbered(line, n);
    crate::blocks::lemma_leading_ws_le(line);
    crate::settings::lemma_decimal_digits(n);
    assert(r == line.take(lw) + dec + rest);
    assert forall|j: int| 0 <= j < lw implies crate::text::is_white_space(#[trigger] r[j]) by {
        crate::blocks::lemma_leading_ws_prefix(line, j);
        assert(r[j] == line[j]);
    }
    assert(r[lw] == dec[0]);
    assert('0' <= dec[0] <= '9');
    crate::text::lemma_leading_ws(r, lw);
    assert(trim_start(r) =~= dec + rest);
    assert(leading(r) =~= leading(line));
}

/// A renumbered item is still an item, with the same indent, the new number
/// and the same text; renumbering it with the same number changes nothing.
proof fn lemma_renumbered(line: Seq<char>, n: nat)
    requires
        numbered(line) is Some,
    ensures
        numbered(renumbered(line, n)) == Some(decimal(n).len() as int),
        renumbered(renumbered(line, n), n) == renumbered(line, n),
{
    let t = trim_start(line);
    let d = numbered(line)->0;
    let dec = decimal(n);
    let rest = t.skip(d);
    let r = renumbered(line, n);
    crate::settings::lemma_decimal_digits(n);
    lemma_find_from(t, seq!['.', ' '], 0);
    assert(t.subrange(d, d + 2) == seq!['.', ' ']);
    assert(rest[0] == '.' && rest[1] == ' ') by {
        assert(rest[0] == t.subrange(d, d + 2)[0]);
        assert(rest[1] == t.subrange(d, d + 2)[1]);
    }
    lemma_renumbered_parts(line, n);
    lemma_digits_then_dot(dec, rest);
    let m = dec.len() as int;
    assert(numbered(r) == Some(m));
    assert(trim_start(r).skip(m) =~= rest);
}

/// Renumbering keeps the run where it was: the renumbered items are still
/// items, and the lines around the run are untouched.
proof fn lemma_renumber_keeps_run(ls: Seq<Seq<char>>, from: int)
    requires
        0 <= from <= ls.len(),
    ensures
        run_start(renumber_spec(ls, from), from) == run_start(ls, from),
        run_end(renumber_spec(ls, from), run_start(ls, from)) == run_end(ls, run_start(ls, from)),
{
    let s = run_start(ls, from);
    lemma_run_start(ls, from);
    lemma_run_start_stops(ls, from);
    let e = run_end(ls, s);
    lemma_run_end(ls, s);
    lemma_run_end_stops(ls, s);
    lemma_run_end_reaches(ls, s, from);
    let ns = renumber_spec(ls, from);
    assert forall|k: int| s <= k < e implies numbered(#[trigger] ns[k]) is Some by {
        lemma_renumbered(ls[k], (k - s + 1) as nat);
    }
    if s > 0 {
        assert(ns[s - 1] == ls[s - 1]);
    }
    if e < ls.len() {
        assert(ns[e] == ls[e]);
    }
    lemma_run_start_is(ns, s, from);
    lemma_run_end_is(ns, s, e);
}

/// Renumbering a list a second time changes nothing: the renumbered items
/// stay items, the run keeps its bounds, and each item already has its
/// number.
pub proof fn law_renumber_idempotent(ls: Seq<Seq<char>>, from: int)
    requires
        0 <= from <= ls.len(),
    ensures
        renumber_spec(renumber_spec(ls, from), from) == renumber_spec(ls, from),
{
    let s = run_start(ls, from);
    let e = run_end(ls, s);
    lemma_run_start(ls, from);
    lemma_run_end(ls, s);
    lemma_renumber_keeps_run(ls, from);
    let ns = renumber_spec(ls, from);
    let nn = renumber_spec(ns, from);
    assert forall|k: int| 0 <= k < ls.len() implies #[trigger] nn[k] == ns[k] by {
        if s <= k < e {
            lemma_renumbered(ls[k], (k - s + 1) as nat);
        }
    }
    assert(nn =~= ns);
}

/// Renumbers the run of numbered list items around `from_line`: walks back
/// from `from_line` over numbered items to the start of the run, then numbers
/// the run `1, 2, 3, ..` from there on, keeping each item's indent and text.
pub fn renumber_list(lines: &mut Vec<String>, from_line: usize)
    requires
        from_line <= old(lines).len(),
        run_end(strings(old(lines)@), run_start(strings(old(lines)@), from_line as int))
            - run_start(strings(old(lines)@), from_line as int) < u32::MAX,
    ensures
        strings(final(lines)@) == renumber_spec(strings(old(lines)@), from_line as int),
        run_start(strings(final(lines)@), from_line as int) == run_start(
            strings(old(lines)@),
            from_line as int,
        ),
        run_end(strings(final(lines)@), run_start(strings(final(lines)@), from_line as int))
            == run_end(strings(old(lines)@), run_start(strings(old(lines)@), from_line as int)),
        final(lines).len() == old(lines).len(),
        forall|k: int|
            0 <= k < old(lines).len() ==> #[trigger] strings(final(lines)@)[k] == {
                let ls = strings(old(lines)@);
                let s = run_start(ls, from_line as int);
                if s <= k < run_end(ls, s) {
                    renumbered(ls[k], (k - s + 1) as nat)
                } else {
                    ls[k]
                }
            },
{
    let ghost ls = strings(lines@);
    proof {
        lemma_run_start(ls, from_line as int);
    }
    let mut start = from_line;
    while start > 0
        invariant
            start <= from_line,
            lines.len() == ls.len(),
            strings(lines@) == ls,
            from_line <= ls.len(),
            run_start(ls, from_line as int) == run_start(ls, start as int),
        ensures
            run_start(ls, start as int) == start,
        decreases start,
    {
        let v = chars_of(lines[start - 1].as_str());
        assert(strings(lines@)[start - 1] == lines@[start - 1]@);
        if numbered_exec(&v).is_some() {
            start = start - 1;
        } else {
            assert(run_start(ls, start as int) == start);
            break;
        }
    }
    assert(run_start(ls, start as int) == start);
    proof {
        lemma_run_end(ls, start as int);
    }
    let ghost s = start as int;
    let ghost e = run_end(ls, s);
    let mut num: u32 = 1;
    let mut i = start;
    while i < lines.len()
        invariant
            s == start,
            s <= i <= e <= ls.len(),
            lines.len() == ls.len(),
            e == run_end(ls, s),
            run_end(ls, i as int) == e,
            num == i - s + 1,
            e - s < u32::MAX,
            forall|k: int|
                0 <= k < ls.len() ==> #[trigger] strings(lines@)[k] == if s <= k < i {
                    renumbered(ls[k], (k - s + 1) as nat)
                } else {
                    ls[k]
                },
        ensures
            i == e,
        decreases ls.len() - i,
    {
        let v = chars_of(lines[i].as_str());
        assert(strings(lines@)[i as int] == ls[i as int]);
        assert(v@ == ls[i as int]);
        match numbered_exec(&v) {
            Some((lead, d)) => {
                proof {
                    lemma_run_end(ls, i + 1);
                }
                assert(run_end(ls, i as int) == run_end(ls, i + 1));
                let mut out = sub_chars(&v, 0, lead);
                push_decimal(&mut out, num as u128);
                let rest = sub_chars(&v, lead + d, v.len());
                assert(rest@ == trim_start(v@).skip(d as int));
                extend_chars(&mut out, &rest);
                let ghost old_lines = strings(lines@);
                lines[i] = string_of(&out);
                assert(strings(lines@) == old_lines.update(i as int, out@));
                num = num + 1;
                i = i + 1;
            },
            None => {
                assert(run_end(ls, i as int) == i);
                break;
            },
        }
    }
    assert(strings(lines@) =~= renumber_spec(ls, from_line as int));
    proof {
        lemma_renumber_keeps_run(ls, from_line as int);
    }
}

} // verus!

verus! {

/// The lines a line-prefix command applies to: the selected lines, or the
/// cursor's line.
pub open spec fn command_lines(cursor: (usize, usize), selection: Option<((usize, usize), (usize, usize))>) -> (int, int) {
    match selection {
        Some((a, b)) => (a.0 as int, b.0 as int),
        None => (cursor.0 as int, cursor.0 as int),
    }
}

/// A line with `p` removed from its start if it has it, or added otherwise.
pub open spec fn toggled_prefix(line: Seq<char>, p: Seq<char>) -> Seq<char> {
    if starts_with(line, p) {
        line.skip(p.len() as int)
    } else {
        p + line
    }
}

/// Whether some line in `[lo, hi]` starts with `p`.
pub open spec fn some_line_has_prefix(ls: Seq<Seq<char>>, lo: int, hi: int, p: Seq<char>) -> bool {
    exists|k: int| lo <= k <= hi && 0 <= k < ls.len() && starts_with(#[trigger] ls[k], p)
}

/// The lines after toggling `p` on the lines `[lo, hi]`.
pub open spec fn prefix_toggled_lines(ls: Seq<Seq<char>>, lo: int, hi: int, p: Seq<char>) -> Seq<Seq<char>> {
    Seq::new(ls.len(), |k: int| if lo <= k <= hi { toggled_prefix(ls[k], p) } else { ls[k] })
}

/// The cursor after toggling `p` on the lines `[lo, end]`: on those lines it
/// moves right by the prefix's length when the prefix was added to every line,
/// and left (not past column 0) when it was removed from some line.
pub open spec fn prefix_toggled_cursor(cursor: (usize, usize), lo: int, end: int, added: bool, plen: nat) -> (int, int) {
    if lo <= cursor.0 <= end {
        (cursor.0 as int, if added {
            cursor.1 + plen
        } else if cursor.1 >= plen {
            cursor.1 - plen
        } else {
            0
        })
    } else {
        (cursor.0 as int, cursor.1 as int)
    }
}

/// Toggles a line prefix (heading, list, checkbox, quote marker) on the
/// selected lines (`selection` is the ordered selection) or on the cursor's
/// line: a line that starts with it loses it, any other line gains it; the
/// cursor column follows. The caller clears the selection.
pub fn toggle_line_prefix(
    lines: &mut Vec<String>,
    cursor: &mut (usize, usize),
    selection: Option<((usize, usize), (usize, usize))>,
    prefix: &str,
)
    requires
        old(lines).len() > 0,
        ({
            let (lo, end) = command_lines(*old(cursor), selection);
            let hi = if end < old(lines).len() - 1 { end } else { old(lines).len() - 1 };
            lo <= old(cursor).0 <= end && !some_line_has_prefix(strings(old(lines)@), lo, hi, prefix@)
                ==> old(cursor).1 + prefix@.len() <= usize::MAX
        }),
    ensures
        ({
            let ls = strings(old(lines)@);
            let (lo, end) = command_lines(*old(cursor), selection);
            let hi = if end < ls.len() - 1 { end } else { ls.len() - 1 };
            let added = !some_line_has_prefix(ls, lo, hi, prefix@);
            &&& strings(final(lines)@) == prefix_toggled_lines(ls, lo, hi, prefix@)
            &&& (final(cursor).0 as int, final(cursor).1 as int) == prefix_toggled_cursor(
                *old(cursor),
                lo,
                end,
                added,
                prefix@.len(),
            )
        }),
{
    let p = chars_of(prefix);
    let plen = p.len();
    let (start_line, end_line) = match selection {
        Some((a, b)) => (a.0, b.0),
        None => (cursor.0, cursor.0),
    };
    let last = if end_line < lines.len() - 1 { end_line } else { lines.len() - 1 };
    let ghost ls = strings(lines@);
    let mut added = true;
    let mut li = start_line;
    while li <= last
        invariant
            plen == p.len(),
            start_line <= li,
            start_line <= last + 1 ==> li <= last + 1,
            start_line > last + 1 ==> li == start_line,
            last < lines.len(),
            lines.len() == ls.len(),
            p@ == prefix@,
            added == !some_line_has_prefix(ls, start_line as int, li - 1, p@),
            forall|k: int|
                0 <= k < ls.len() ==> #[trigger] strings(lines@)[k] == if start_line <= k < li {
                    toggled_prefix(ls[k], p@)
                } else {
                    ls[k]
                },
        decreases last + 1 - li,
    {
        let v = chars_of(lines[li].as_str());
        assert(strings(lines@)[li as int] == ls[li as int]);
        let ghost old_lines = strings(lines@);
        if starts_with_exec(&v, &p) {
            let rest = sub_chars(&v, plen, v.len());
            lines[li] = string_of(&rest);
            added = false;
        } else {
            let mut out = sub_chars(&p, 0, plen);
            extend_chars(&mut out, &v);
            lines[li] = string_of(&out);
            assert(!some_line_has_prefix(ls, start_line as int, li as int, p@)
                == !some_line_has_prefix(ls, start_line as int, li - 1, p@));
        }
        assert(strings(lines@) == old_lines.update(li as int, strings(lines@)[li as int]));
        li = li + 1;
    }
    assert(strings(lines@) == prefix_toggled_lines(ls, start_line as int, last as int, p@));
    let (cl, cc) = *cursor;
    if cl >= start_line && cl <= end_line {
        if added {
            cursor.1 = cc + plen;
        } else {
            cursor.1 = if cc >= plen { cc - plen } else { 0 };
        }
    }
}

/// Toggling a prefix twice on a cursor line without it, with no selection,
/// gives back the lines and the cursor.
pub proof fn law_toggle_prefix_twice(ls: Seq<Seq<char>>, cursor: (usize, usize), p: Seq<char>)
    requires
        0 <= cursor.0 < ls.len(),
        !starts_with(ls[cursor.0 as int], p),
        cursor.1 + p.len() <= usize::MAX,
    ensures
        ({
            let l = cursor.0 as int;
            let once = prefix_toggled_lines(ls, l, l, p);
            let c1 = prefix_toggled_cursor(cursor, l, l, true, p.len());
            let twice = prefix_toggled_lines(once, l, l, p);
            let c2 = prefix_toggled_cursor((c1.0 as usize, c1.1 as usize), l, l, false, p.len());
            &&& !some_line_has_prefix(ls, l, l, p)
            &&& some_line_has_prefix(once, l, l, p)
            &&& twice == ls
            &&& c2 == (cursor.0 as int, cursor.1 as int)
        }),
{
    let l = cursor.0 as int;
    let once = prefix_toggled_lines(ls, l, l, p);
    assert(once[l] == p + ls[l]);
    assert((p + ls[l]).subrange(0, p.len() as int) == p);
    assert(starts_with(once[l], p));
    assert((p + ls[l]).skip(p.len() as int) == ls[l]);
    let twice = prefix_toggled_lines(once, l, l, p);
    assert(twice == ls);
}

} // verus!

verus! {

/// Toggling an inline marker (`**`, `*`, `` ` ``) around a text: a text
/// wrapped in it (and at least twice as long as it, in bytes) loses it,
/// any other text is wrapped in it.
pub open spec fn toggled_marker(t: Seq<char>, m: Seq<char>) -> Seq<char> {
    if wrapped_in(t, m) {
        t.subrange(m.len() as int, t.len() - m.len())
    } else {
        m + t + m
    }
}

/// A text that starts and ends with `m` and has at least twice its bytes
/// has at least twice its characters.
proof fn lemma_marker_fits(t: Seq<char>, m: Seq<char>)
    requires
        starts_with(t, m),
        ends_with(t, m),
        utf8_len(t) >= 2 * utf8_len(m),
    ensures
        t.len() >= 2 * m.len(),
{
    if t.len() < 2 * m.len() {
        let k = t.len() - m.len();
        assert(t == t.take(k) + t.skip(k));
        assert(t.skip(k) == m);
        assert(t.take(k) == m.take(k)) by {
            assert(t.subrange(0, m.len() as int) == m);
        }
        lemma_utf8_len_concat(t.take(k), t.skip(k));
        assert(m == m.take(k) + m.skip(k));
        lemma_utf8_len_concat(m.take(k), m.skip(k));
        assert(m.skip(k).len() > 0);
        lemma_len_le_utf8_len(m.skip(k));
    }
}

/// Toggles an inline marker around a text.
fn toggle_marker_chars(t: &[char], m: &[char]) -> (r: Vec<char>)
    requires
        crate::text::fits(t@),
        crate::text::fits(m@),
    ensures
        r@ == toggled_marker(t@, m@),
{
    if starts_with_exec(t, m) && ends_with_exec(t, m) {
        proof {
            crate::text::lemma_fits_subrange(t@, 0, t@.len() as int);
            crate::text::lemma_fits_subrange(m@, 0, m@.len() as int);
            assert(t@.subrange(0, t@.len() as int) == t@);
            assert(m@.subrange(0, m@.len() as int) == m@);
        }
        let tb = utf8_len_of(t);
        let mb = utf8_len_of(m);
        if tb >= 2 * mb {
            proof {
                lemma_marker_fits(t@, m@);
            }
            return sub_chars(t, m.len(), t.len() - m.len());
        }
    }
    let mut r = sub_chars(m, 0, m.len());
    extend_chars(&mut r, t);
    extend_chars(&mut r, m);
    r
}

/// Toggles an inline marker around a selected text: `**bold**` becomes
/// `bold` and `bold` becomes `**bold**`.
pub fn toggle_marker_text(text: &str, marker: &str) -> (r: String)
    requires
        crate::text::fits(text@),
        crate::text::fits(marker@),
    ensures
        r@ == toggled_marker(text@, marker@),
{
    let t = chars_of(text);
    let m = chars_of(marker);
    let r = toggle_marker_chars(&t, &m);
    string_of(&r)
}

/// Whether a text is wrapped in marker `m` (and long enough to lose it).
pub open spec fn wrapped_in(t: Seq<char>, m: Seq<char>) -> bool {
    starts_with(t, m) && ends_with(t, m) && utf8_len(t) >= 2 * utf8_len(m)
}

/// Toggling a marker twice gives the text back, unless the text is wrapped
/// twice over (then the second toggle unwraps again).
pub proof fn law_marker_twice(t: Seq<char>, m: Seq<char>)
    requires
        !(wrapped_in(t, m) && wrapped_in(t.subrange(m.len() as int, t.len() - m.len()), m)),
    ensures
        toggled_marker(toggled_marker(t, m), m) == t,
{
    if wrapped_in(t, m) {
        lemma_marker_fits(t, m);
        let inner = t.subrange(m.len() as int, t.len() - m.len());
        assert(t.subrange(0, m.len() as int) == m);
        assert(t.subrange(t.len() - m.len(), t.len() as int) == m);
        assert(m + inner + m =~= t);
    } else {
        let w = m + t + m;
        assert(w.subrange(0, m.len() as int) =~= m);
        assert(w.subrange(w.len() - m.len(), w.len() as int) =~= m);
        lemma_utf8_len_concat(m + t, m);
        lemma_utf8_len_concat(m, t);
        assert(wrapped_in(w, m));
        assert(w.subrange(m.len() as int, w.len() - m.len()) =~= t);
    }
}

/// A line with the marker toggled around its text, keeping its indent.
pub open spec fn marker_toggled_line(line: Seq<char>, m: Seq<char>) -> Seq<char> {
    leading(line) + toggled_marker(trim_start(line), m)
}

/// Toggles an inline marker on each of the lines `[start_line, end_line]`
/// (a selection over several lines): each line's text, after its indent,
/// loses the marker if wrapped in it and is wrapped in it otherwise.
pub fn toggle_marker_on_lines(lines: &mut Vec<String>, start_line: usize, end_line: usize, marker: &str)
    requires
        old(lines).len() > 0,
        forall|k: int| 0 <= k < old(lines).len() ==> crate::text::fits(#[trigger] strings(old(lines)@)[k]),
        crate::text::fits(marker@),
    ensures
        ({
            let ls = strings(old(lines)@);
            let hi = if end_line < ls.len() - 1 { end_line as int } else { ls.len() - 1 };
            strings(final(lines)@) == Seq::new(
                ls.len(),
                |k: int| if start_line <= k <= hi { marker_toggled_line(ls[k], marker@) } else { ls[k] },
            )
        }),
{
    let m = chars_of(marker);
    let last = if end_line < lines.len() - 1 { end_line } else { lines.len() - 1 };
    let ghost ls = strings(lines@);
    let mut li = start_line;
    while li <= last
        invariant
            start_line <= li,
            start_line <= last + 1 ==> li <= last + 1,
            start_line > last + 1 ==> li == start_line,
            last < lines.len(),
            lines.len() == ls.len(),
            m@ == marker@,
            crate::text::fits(marker@),
            forall|k: int| 0 <= k < ls.len() ==> crate::text::fits(#[trigger] ls[k]),
            forall|k: int|
                0 <= k < ls.len() ==> #[trigger] strings(lines@)[k] == if start_line <= k < li {
                    marker_toggled_line(ls[k], m@)
                } else {
                    ls[k]
                },
        decreases last + 1 - li,
    {
        let v = chars_of(lines[li].as_str());
        assert(strings(lines@)[li as int] == ls[li as int]);
        let lead = leading_ws_count(&v);
        let t = sub_chars(&v, lead, v.len());
        proof {
            crate::text::lemma_fits_subrange(v@, lead as int, v@.len() as int);
        }
        let toggled = toggle_marker_chars(&t, &m);
        let mut out = sub_chars(&v, 0, lead);
        extend_chars(&mut out, &toggled);
        let ghost old_lines = strings(lines@);
        lines[li] = string_of(&out);
        assert(strings(lines@) == old_lines.update(li as int, out@));
        li = li + 1;
    }
    let ghost hi = if end_line < ls.len() - 1 { end_line as int } else { ls.len() - 1 };
    assert(strings(lines@) == Seq::new(
        ls.len(),
        |k: int| if start_line <= k <= hi { marker_toggled_line(ls[k], marker@) } else { ls[k] },
    ));
}

/// Replaces the first occurrence of `p` by `r`.
pub open spec fn replace_first(s: Seq<char>, p: Seq<char>, r: Seq<char>) -> Seq<char> {
    match find(s, p) {
        Some(k) => s.take(k) + r + s.skip(k + p.len()),
        None => s,
    }
}

/// A checked checkbox `- [x]`.
pub open spec fn checked_box() -> Seq<char> {
    seq!['-', ' ', '[', 'x', ']']
}

/// An unchecked checkbox `- [ ]`.
pub open spec fn unchecked_box() -> Seq<char> {
    seq!['-', ' ', '[', ' ', ']']
}

/// A line with its first checkbox toggled: the first `- [x]` becomes
/// `- [ ]`; failing that, the first `- [ ]` becomes `- [x]`.
pub open spec fn checkbox_toggled(line: Seq<char>) -> Seq<char> {
    if find(line, checked_box()) is Some {
        replace_first(line, checked_box(), unchecked_box())
    } else if find(line, unchecked_box()) is Some {
        replace_first(line, unchecked_box(), checked_box())
    } else {
        line
    }
}

/// Replaces the first occurrence of `p` by `r`.
fn replace_first_chars(v: &[char], p: &[char], r: &[char]) -> (out: Vec<char>)
    ensures
        out@ == replace_first(v@, p@, r@),
{
    proof {
        lemma_find_from(v@, p@, 0);
    }
    match find_from_exec(v, p, 0) {
        Some(k) => {
            assert(crate::text::matches_at(v@, p@, k as int));
            assert(k + p@.len() <= v@.len());
            assert(p.len() == p@.len() && v.len() == v@.len());
            let mut out = sub_chars(v, 0, k);
            extend_chars(&mut out, r);
            let rest = sub_chars(v, k + p.len(), v.len());
            extend_chars(&mut out, &rest);
            out
        },
        None => sub_chars(v, 0, v.len()),
    }
}

/// Toggles the checkbox of line `line` (clicked in the editor); a line
/// index past the end changes nothing.
pub fn toggle_checkbox(lines: &mut Vec<String>, line: usize)
    ensures
        strings(final(lines)@) == if line < old(lines).len() {
            strings(old(lines)@).update(line as int, checkbox_toggled(strings(old(lines)@)[line as int]))
        } else {
            strings(old(lines)@)
        },
{
    if line < lines.len() {
        let v = chars_of(lines[line].as_str());
        let x = ['-', ' ', '[', 'x', ']'];
        let o = ['-', ' ', '[', ' ', ']'];
        assert(x@ == checked_box());
        assert(o@ == unchecked_box());
        let ghost old_lines = strings(lines@);
        assert(old_lines[line as int] == v@);
        if crate::text::contains_exec(&v, &x) {
            let out = replace_first_chars(&v, &x, &o);
            lines[line] = string_of(&out);
        } else if crate::text::contains_exec(&v, &o) {
            let out = replace_first_chars(&v, &o, &x);
            lines[line] = string_of(&out);
        }
        assert(strings(lines@) == old_lines.update(line as int, checkbox_toggled(old_lines[line as int])));
    }
}

/// `n` spaces: one level of indent.
pub open spec fn spaces(n: nat) -> Seq<char> {
    Seq::new(n, |_i: int| ' ')
}

/// `n` spaces, computed.
fn spaces_exec(n: usize) -> (r: Vec<char>)
    ensures
        r@ == spaces(n as nat),
{
    let mut r: Vec<char> = Vec::new();
    while r.len() < n
        invariant
            r.len() <= n,
            r@ == spaces(r.len() as nat),
        decreases n - r.len(),
    {
        r.push(' ');
        assert(r@ == spaces(r.len() as nat));
    }
    r
}

/// Indents the cursor's line by `width` spaces (four in a canvas card, two
/// in the note editor) and moves the cursor with it. Returns whether
/// anything changed (the cursor's line exists).
pub fn indent_line(lines: &mut Vec<String>, cursor: &mut (usize, usize), width: usize) -> (changed: bool)
    requires
        old(cursor).1 + width <= usize::MAX,
    ensures
        changed == (old(cursor).0 < old(lines).len()),
        changed ==> (strings(final(lines)@), *final(cursor)) == indented(
            strings(old(lines)@),
            *old(cursor),
            width,
        ),
        changed ==> strings(final(lines)@) == strings(old(lines)@).update(
            old(cursor).0 as int,
            spaces(width as nat) + strings(old(lines)@)[old(cursor).0 as int],
        ) && *final(cursor) == (old(cursor).0, (old(cursor).1 + width) as usize),
        !changed ==> final(lines)@ == old(lines)@ && *final(cursor) == *old(cursor),
{
    let li = cursor.0;
    if li < lines.len() {
        let v = chars_of(lines[li].as_str());
        let mut out = spaces_exec(width);
        extend_chars(&mut out, &v);
        let ghost old_lines = strings(lines@);
        lines[li] = string_of(&out);
        assert(strings(lines@) == old_lines.update(li as int, spaces(width as nat) + v@));
        cursor.1 = cursor.1 + width;
        true
    } else {
        false
    }
}

/// Removes `width` leading spaces from the cursor's line, if it has them,
/// and moves the cursor left by as many (not past column 0). Returns
/// whether anything changed.
pub fn unindent_line(lines: &mut Vec<String>, cursor: &mut (usize, usize), width: usize) -> (changed: bool)
    ensures
        (strings(final(lines)@), *final(cursor)) == unindented(
            strings(old(lines)@),
            *old(cursor),
            width,
        ),
        changed == (old(cursor).0 < old(lines).len() && starts_with(
            strings(old(lines)@)[old(cursor).0 as int],
            spaces(width as nat),
        )),
        changed ==> strings(final(lines)@) == strings(old(lines)@).update(
            old(cursor).0 as int,
            strings(old(lines)@)[old(cursor).0 as int].skip(width as int),
        ) && *final(cursor) == (old(cursor).0, if old(cursor).1 >= width {
            (old(cursor).1 - width) as usize
        } else {
            0
        }),
        !changed ==> final(lines)@ == old(lines)@ && *final(cursor) == *old(cursor),
{
    let li = cursor.0;
    if li < lines.len() {
        let v = chars_of(lines[li].as_str());
        let unit = spaces_exec(width);
        let ghost old_lines = strings(lines@);
        assert(old_lines[li as int] == v@);
        if starts_with_exec(&v, &unit) {
            let rest = sub_chars(&v, width, v.len());
            lines[li] = string_of(&rest);
            assert(strings(lines@) == old_lines.update(li as int, v@.skip(width as int)));
            cursor.1 = if cursor.1 >= width { cursor.1 - width } else { 0 };
            return true;
        }
    }
    false
}

/// Unindenting right after indenting by the same width gives back the line
/// and the cursor.
pub proof fn law_unindent_after_indent(line: Seq<char>, width: nat, col: nat)
    ensures
        starts_with(spaces(width) + line, spaces(width)),
        (spaces(width) + line).skip(width as int) == line,
        col + width >= width && (col + width) - width == col,
{
    assert((spaces(width) + line).subrange(0, width as int) == spaces(width));
    assert((spaces(width) + line).skip(width as int) == line);
}

/// The lines and cursor after indenting the cursor's line by `width`
/// spaces: the spaces go in front of the line and the cursor moves right.
pub open spec fn indented(ls: Seq<Seq<char>>, c: (usize, usize), width: usize) -> (Seq<Seq<char>>, (usize, usize)) {
    (ls.update(c.0 as int, spaces(width as nat) + ls[c.0 as int]), (c.0, (c.1 + width) as usize))
}

/// The lines and cursor after unindenting the cursor's line by `width`: a
/// line that starts with that many spaces loses them and the cursor moves
/// left (not past the line's start); anything else is left as it is.
pub open spec fn unindented(ls: Seq<Seq<char>>, c: (usize, usize), width: usize) -> (Seq<Seq<char>>, (usize, usize)) {
    if c.0 < ls.len() && starts_with(ls[c.0 as int], spaces(width as nat)) {
        (
            ls.update(c.0 as int, ls[c.0 as int].skip(width as int)),
            (c.0, if c.1 >= width {
                (c.1 - width) as usize
            } else {
                0
            }),
        )
    } else {
        (ls, c)
    }
}

/// Unindenting right after indenting gives the lines and the cursor back.
pub proof fn law_unindent_undoes_indent(ls: Seq<Seq<char>>, c: (usize, usize), width: usize)
    requires
        c.0 < ls.len(),
        c.1 + width <= usize::MAX,
    ensures
        unindented(indented(ls, c, width).0, indented(ls, c, width).1, width) == (ls, c),
{
    let line = ls[c.0 as int];
    law_unindent_after_indent(line, width as nat, c.1 as nat);
    let ls1 = indented(ls, c, width).0;
    assert(ls1[c.0 as int] == spaces(width as nat) + line);
    assert(ls1.update(c.0 as int, line) =~= ls);
}

} // verus!
