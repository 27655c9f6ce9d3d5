//! What the note editor's keys do to the lines of a note: Enter (list items,
//! tables, images), the slash menu while typing, and Backspace on image
//! lines.
use vstd::prelude::*;
use crate::editor::{all_digits, leading, strings};
use crate::size::{decimal, push_decimal};
use crate::snippet::{is_table_row, is_table_separator, only_table_rule_chars};
use crate::text::{
    chars_of, contains, contains_exec, ends_with, ends_with_exec, extend_chars,
    find, find_from_exec, fits, leading_ws_count, lemma_find_from, lemma_len_le_utf8_len,
    lemma_utf8_len_concat, lemma_utf8_len_take_le, starts_with, starts_with_exec,
    string_of, sub_chars, trim, trim_chars, trim_start, trim_start_chars, utf8_len, utf8_len_of,
    utf8_len_reaches,
};

verus! {

/// Whether a trimmed line refers to a stored image: `![..](img:..)`.
pub open spec fn is_image_ref(t: Seq<char>) -> bool {
    &&& starts_with(t, seq!['!', '['])
    &&& contains(t, seq![']', '(', 'i', 'm', 'g', ':'])
    &&& ends_with(t, seq![')'])
}

/// Whether a line is a table row other than a separator row.
pub open spec fn table_body_row(line: Seq<char>) -> bool {
    let t = trim_start(line);
    is_table_row(t) && !is_table_separator(t)
}

/// Whether a trimmed line refers to a stored image, computed.
fn image_ref_exec(t: &[char]) -> (b: bool)
    ensures
        b == is_image_ref(t@),
{
    let open = ['!', '['];
    let mid = [']', '(', 'i', 'm', 'g', ':'];
    let close = [')'];
    assert(open@ == seq!['!', '['] && mid@ == seq![']', '(', 'i', 'm', 'g', ':'] && close@ == seq![')']);
    starts_with_exec(t, &open) && contains_exec(t, &mid) && ends_with_exec(t, &close)
}

/// Whether a trimmed line is a table row `|..|`, computed.
fn table_row_exec(t: &[char]) -> (b: bool)
    ensures
        b == is_table_row(t@),
{
    let bar = ['|'];
    assert(bar@ == seq!['|']);
    starts_with_exec(t, &bar) && ends_with_exec(t, &bar)
}

/// Whether a trimmed line is a table separator row, computed.
fn table_separator_exec(t: &[char]) -> (b: bool)
    ensures
        b == is_table_separator(t@),
{
    let bar = ['|'];
    let dash = ['-'];
    assert(bar@ == seq!['|'] && dash@ == seq!['-']);
    starts_with_exec(t, &bar) && contains_exec(t, &dash) && only_table_rule_chars(t)
}

/// Whether a line is a table row other than a separator row (where Tab and
/// the arrow keys move between cells rather than edit the text).
pub fn is_table_body_row(line: &str) -> (b: bool)
    ensures
        b == table_body_row(line@),
{
    let v = chars_of(line);
    let t = trim_start_chars(&v);
    table_row_exec(&t) && !table_separator_exec(&t)
}

/// The slash-menu filter of a line: after its indent, a `/` and no space
/// anywhere; the filter is what follows the `/`.
pub open spec fn slash_filter(line: Seq<char>) -> Option<Seq<char>> {
    let t = trim_start(line);
    if starts_with(t, seq!['/']) && !contains(t, seq![' ']) {
        Some(t.skip(1))
    } else {
        None
    }
}

/// The slash-menu filter after typing on a line: `Some` opens the menu with
/// that filter, `None` closes it.
pub fn slash_command(line: &str) -> (r: Option<String>)
    ensures
        match r {
            Some(f) => slash_filter(line@) == Some(f@),
            None => slash_filter(line@) is None,
        },
{
    let v = chars_of(line);
    let t = trim_start_chars(&v);
    let slash = ['/'];
    let space = [' '];
    assert(slash@ == seq!['/'] && space@ == seq![' ']);
    if starts_with_exec(&t, &slash) && !contains_exec(&t, &space) {
        let rest = sub_chars(&t, 1, t.len());
        Some(string_of(&rest))
    } else {
        None
    }
}

} // verus!

verus! {

/// The lines, with one empty line where none is left.
pub open spec fn nonempty_lines(s: Seq<Seq<char>>) -> Seq<Seq<char>> {
    if s.len() == 0 {
        seq![Seq::<char>::empty()]
    } else {
        s
    }
}

/// The cursor line kept within `n` lines (`n > 0`), at column 0.
pub open spec fn clamped_start(line: int, n: int) -> (usize, usize) {
    ((if line >= n {
        n - 1
    } else {
        line
    }) as usize, 0usize)
}

/// Backspace on an image line (with no selection): the whole line goes, one
/// empty line stays if none is left, and the cursor goes to column 0 of the
/// same line (or the last line). Returns whether the line was an image line.
pub fn backspace_image_line(lines: &mut Vec<String>, cursor: &mut (usize, usize)) -> (removed: bool)
    ensures
        removed == (old(cursor).0 < old(lines).len() && is_image_ref(
            trim_start(strings(old(lines)@)[old(cursor).0 as int]),
        )),
        removed ==> strings(final(lines)@) == nonempty_lines(
            strings(old(lines)@).remove(old(cursor).0 as int),
        ) && *final(cursor) == clamped_start(
            old(cursor).0 as int,
            nonempty_lines(strings(old(lines)@).remove(old(cursor).0 as int)).len() as int,
        ),
        !removed ==> final(lines)@ == old(lines)@ && *final(cursor) == *old(cursor),
{
    let li = cursor.0;
    if li >= lines.len() {
        return false;
    }
    let v = chars_of(lines[li].as_str());
    let t = trim_start_chars(&v);
    if !image_ref_exec(&t) {
        return false;
    }
    let ghost ls = strings(lines@);
    lines.remove(li);
    assert(strings(lines@) == ls.remove(li as int));
    if lines.len() == 0 {
        lines.push(String::new());
        assert(strings(lines@) == seq![Seq::<char>::empty()]);
    }
    let row = if cursor.0 >= lines.len() { lines.len() - 1 } else { cursor.0 };
    *cursor = (row, 0);
    true
}

/// Whether a line survives a selection delete: it is not the broken start
/// of an image reference (after trimming, `![` with no `](` or no closing
/// bracket).
pub open spec fn kept_after_delete(line: Seq<char>) -> bool {
    let t = trim(line);
    !starts_with(t, seq!['!', '[']) || (contains(t, seq![']', '(']) && ends_with(t, seq![')']))
}

/// After a selection is deleted: drops the lines left holding a broken
/// image reference, keeps one empty line if none is left, and keeps the
/// cursor's line within the lines.
pub fn drop_broken_image_refs(lines: &mut Vec<String>, cursor: &mut (usize, usize))
    ensures
        strings(final(lines)@) == nonempty_lines(
            strings(old(lines)@).filter(|l: Seq<char>| kept_after_delete(l)),
        ),
        final(cursor).1 == old(cursor).1,
        final(cursor).0 == if old(cursor).0 >= final(lines).len() {
            (final(lines).len() - 1) as usize
        } else {
            old(cursor).0
        },
{
    let ghost pred = |l: Seq<char>| kept_after_delete(l);
    let mut input: Vec<String> = Vec::new();
    std::mem::swap(lines, &mut input);
    let ghost src = input@;
    let n = input.len();
    let mut kept: Vec<String> = Vec::new();
    let open = ['!', '['];
    let mid = [']', '('];
    let close = [')'];
    assert(open@ == seq!['!', '['] && mid@ == seq![']', '('] && close@ == seq![')']);
    let mut k: usize = 0;
    while k < n
        invariant
            n == src.len(),
            k <= n,
            input@ == src.skip(k as int),
            pred == (|l: Seq<char>| kept_after_delete(l)),
            open@ == seq!['!', '['],
            mid@ == seq![']', '('],
            close@ == seq![')'],
            strings(kept@) == strings(src.take(k as int)).filter(pred),
        decreases n - k,
    {
        let l = input.remove(0);
        proof {
            reveal_with_fuel(Seq::<_>::filter, 1);
            assert(src.skip(k as int)[0] == src[k as int]);
            assert(src.take(k + 1) == src.take(k as int).push(src[k as int]));
            assert(strings(src.take(k + 1)) == strings(src.take(k as int)).push(src[k as int]@));
            assert(strings(src.take(k + 1)).drop_last() == strings(src.take(k as int)));
            assert(src.skip(k + 1) == src.skip(k as int).drop_first());
        }
        let v = chars_of(l.as_str());
        let t = trim_chars(&v);
        let keep = !starts_with_exec(&t, &open) || (contains_exec(&t, &mid) && ends_with_exec(&t, &close));
        assert(keep == kept_after_delete(l@));
        if keep {
            proof {
                assert(strings(kept@.push(l)) == strings(kept@).push(l@));
            }
            kept.push(l);
        }
        k = k + 1;
    }
    assert(src.take(n as int) == src);
    if kept.len() == 0 {
        kept.push(String::new());
        assert(strings(kept@) == seq![Seq::<char>::empty()]);
    }
    *lines = kept;
    if cursor.0 >= lines.len() {
        cursor.0 = lines.len() - 1;
    }
}

} // verus!

verus! {

/// Whether a character is an ASCII decimal digit.
pub open spec fn is_digit(c: char) -> bool {
    '0' <= c <= '9'
}

/// The prefix of an open checkbox item.
pub open spec fn open_box() -> Seq<char> {
    seq!['-', ' ', '[', ' ', ']', ' ']
}

/// The list item a trimmed line starts with: the prefix Enter continues it
/// with (a ticked box continues as an open one) and whether text follows
/// the prefix (lengths in bytes, as the editor counts them).
pub open spec fn list_item(t: Seq<char>) -> Option<(Seq<char>, bool)> {
    if starts_with(t, seq!['-', ' ', '[', 'x', ']', ' ']) || starts_with(
        t,
        seq!['-', ' ', '[', 'X', ']', ' '],
    ) || starts_with(t, open_box()) {
        Some((open_box(), utf8_len(t) > 6))
    } else if starts_with(t, seq!['-', ' ']) {
        Some((seq!['-', ' '], utf8_len(t) > 2))
    } else if utf8_len(t) > 2 && t.len() > 0 && is_digit(t[0]) {
        match find(t, seq!['.', ' ']) {
            Some(d) => if all_digits(t, d) {
                Some((t.take(d + 2), utf8_len(t) > d + 2))
            } else {
                None
            },
            None => None,
        }
    } else {
        None
    }
}

/// The number that ASCII digits write.
pub open spec fn digits_value(s: Seq<char>) -> nat
    decreases s.len(),
{
    if s.len() == 0 {
        0
    } else {
        digits_value(s.drop_last()) * 10 + ((s.last() as u32) - 48) as nat
    }
}

/// What `str::parse::<u32>` gives for ASCII digits, or 0 where the number
/// does not fit.
pub open spec fn parsed_or_zero(s: Seq<char>) -> nat {
    if digits_value(s) <= u32::MAX {
        digits_value(s)
    } else {
        0
    }
}

/// The number of a numbered item (a trimmed line).
pub open spec fn item_number(t: Seq<char>) -> nat {
    parsed_or_zero(t.take(find(t, seq!['.', ' '])->0))
}

/// The indent that a continued item copies: as many characters of the line
/// as its indent has bytes.
pub open spec fn copied_indent(line: Seq<char>) -> Seq<char> {
    let n = utf8_len(leading(line));
    if n <= line.len() {
        line.take(n as int)
    } else {
        line
    }
}

/// The start of the item that continues a list line: the copied indent,
/// then the next number and `. ` for a numbered item, or the same prefix.
pub open spec fn continued_prefix(line: Seq<char>) -> Seq<char> {
    let t = trim_start(line);
    if t.len() > 0 && is_digit(t[0]) {
        copied_indent(line) + decimal(item_number(t) + 1) + seq!['.', ' ']
    } else {
        copied_indent(line) + (list_item(t)->0).0
    }
}

/// The cursor's line, or an empty line past the end.
pub open spec fn line_at(lines: Seq<Seq<char>>, cl: int) -> Seq<char> {
    if 0 <= cl < lines.len() {
        lines[cl]
    } else {
        Seq::empty()
    }
}

/// Enter on an image line, or on the last row of a table, opens an empty
/// line below.
pub open spec fn enter_opens_line(lines: Seq<Seq<char>>, cl: int) -> bool {
    0 <= cl < lines.len() && ({
        let t = trim_start(lines[cl]);
        is_image_ref(t) || (is_table_row(t) && (cl + 1 >= lines.len() || !is_table_row(
            trim_start(lines[cl + 1]),
        )))
    })
}

/// Enter on a table row followed by another row moves down the table.
pub open spec fn enter_moves_in_table(lines: Seq<Seq<char>>, cl: int) -> bool {
    &&& 0 <= cl
    &&& cl + 1 < lines.len()
    &&& !is_image_ref(trim_start(lines[cl]))
    &&& is_table_row(trim_start(lines[cl]))
    &&& is_table_row(trim_start(lines[cl + 1]))
}

/// The row Enter moves to in a table: the next row, or the one after it
/// where the next is a separator row; none past the last line.
pub open spec fn next_table_row(lines: Seq<Seq<char>>, cl: int) -> Option<int> {
    let next = if is_table_separator(trim_start(lines[cl + 1])) {
        cl + 2
    } else {
        cl + 1
    };
    if next < lines.len() {
        Some(next)
    } else {
        None
    }
}

/// Elsewhere the list item on the cursor's line decides what Enter does.
pub open spec fn enter_list_item(lines: Seq<Seq<char>>, cl: int) -> Option<(Seq<char>, bool)> {
    if enter_opens_line(lines, cl) || enter_moves_in_table(lines, cl) {
        None
    } else {
        list_item(trim_start(line_at(lines, cl)))
    }
}

/// Whether continuing a numbered item would count past the largest `u32`.
pub open spec fn enter_number_overflows(lines: Seq<Seq<char>>, cl: int) -> bool {
    let t = trim_start(line_at(lines, cl));
    &&& enter_list_item(lines, cl) is Some
    &&& (enter_list_item(lines, cl)->0).1
    &&& t.len() > 0
    &&& is_digit(t[0])
    &&& item_number(t) == u32::MAX
}

/// ASCII characters take one byte each.
proof fn lemma_utf8_len_ascii(s: Seq<char>)
    requires
        forall|k: int| 0 <= k < s.len() ==> (#[trigger] s[k] as u32) < 0x80,
    ensures
        utf8_len(s) == s.len(),
    decreases s.len(),
{
    if s.len() > 0 {
        assert forall|k: int| 0 <= k < s.drop_first().len() implies (#[trigger] s.drop_first()[k] as u32) < 0x80 by {
            assert(s.drop_first()[k] == s[k + 1]);
        }
        lemma_utf8_len_ascii(s.drop_first());
    }
}

/// Whether the first `d` characters are ASCII digits, computed.
fn all_digits_exec(t: &[char], d: usize) -> (b: bool)
    requires
        d <= t.len(),
    ensures
        b == all_digits(t@, d as int),
{
    let mut k: usize = 0;
    while k < d
        invariant
            k <= d <= t.len(),
            all_digits(t@, k as int),
        decreases d - k,
    {
        if !('0' <= t[k] && t[k] <= '9') {
            return false;
        }
        k = k + 1;
    }
    true
}

/// The list item of a trimmed line, computed.
fn list_item_exec(t: &[char]) -> (r: Option<(Vec<char>, bool)>)
    ensures
        match r {
            Some((p, h)) => list_item(t@) == Some((p@, h)),
            None => list_item(t@) is None,
        },
{
    let ticked = ['-', ' ', '[', 'x', ']', ' '];
    let ticked_upper = ['-', ' ', '[', 'X', ']', ' '];
    let open = ['-', ' ', '[', ' ', ']', ' '];
    let dash = ['-', ' '];
    let dot = ['.', ' '];
    assert(ticked@ == seq!['-', ' ', '[', 'x', ']', ' ']);
    assert(ticked_upper@ == seq!['-', ' ', '[', 'X', ']', ' ']);
    assert(open@ == open_box());
    assert(dash@ == seq!['-', ' ']);
    assert(dot@ == seq!['.', ' ']);
    if starts_with_exec(t, &ticked) || starts_with_exec(t, &ticked_upper) || starts_with_exec(t, &open) {
        let p = vec!['-', ' ', '[', ' ', ']', ' '];
        assert(p@ == open_box());
        return Some((p, utf8_len_reaches(t, 7)));
    }
    if starts_with_exec(t, &dash) {
        let p = vec!['-', ' '];
        assert(p@ == seq!['-', ' ']);
        return Some((p, utf8_len_reaches(t, 3)));
    }
    if utf8_len_reaches(t, 3) && t.len() > 0 && '0' <= t[0] && t[0] <= '9' {
        match find_from_exec(t, &dot, 0) {
            Some(d) => {
                proof {
                    lemma_find_from(t@, dot@, 0);
                }
                if all_digits_exec(t, d) {
                    proof {
                        let a = t@.take(d + 2);
                        assert(a[d as int] == '.' && a[d + 1] == ' ') by {
                            assert(t@.subrange(d as int, d + 2) == dot@);
                            assert(t@.subrange(d as int, d + 2)[0] == t@[d as int]);
                            assert(t@.subrange(d as int, d + 2)[1] == t@[d + 1]);
                        }
                        assert forall|k: int| 0 <= k < a.len() implies (#[trigger] a[k] as u32) < 0x80 by {
                            if k < d {
                                assert(a[k] == t@[k]);
                                assert('0' <= t@[k] <= '9');
                            }
                        }
                        lemma_utf8_len_ascii(a);
                        assert(t@ == a + t@.skip(d + 2));
                        lemma_utf8_len_concat(a, t@.skip(d + 2));
                        lemma_len_le_utf8_len(t@.skip(d + 2));
                        if t@.skip(d + 2).len() == 0 {
                            assert(utf8_len(t@.skip(d + 2)) == 0);
                        }
                    }
                    let p = sub_chars(t, 0, d + 2);
                    return Some((p, t.len() > d + 2));
                }
                None
            },
            None => None,
        }
    } else {
        None
    }
}

/// The number that the first `d` characters (ASCII digits) write, or 0
/// where it does not fit in a `u32`.
fn parse_or_zero(t: &[char], d: usize) -> (r: u32)
    requires
        d <= t.len(),
        all_digits(t@, d as int),
    ensures
        r == parsed_or_zero(t@.take(d as int)),
{
    let mut v: u64 = 0;
    let mut big = false;
    let mut k: usize = 0;
    while k < d
        invariant
            k <= d <= t.len(),
            all_digits(t@, d as int),
            !big ==> v == digits_value(t@.take(k as int)) && v <= u32::MAX,
            big ==> digits_value(t@.take(k as int)) > u32::MAX,
        decreases d - k,
    {
        assert(t@.take(k + 1).drop_last() == t@.take(k as int));
        assert(t@.take(k + 1).last() == t@[k as int]);
        assert('0' <= t@[k as int] <= '9');
        let digit = (t[k] as u32 - 48) as u64;
        if !big {
            v = v * 10 + digit;
            if v > 4294967295u64 {
                big = true;
            }
        }
        k = k + 1;
    }
    if big {
        0
    } else {
        v as u32
    }
}

/// The start of the item that continues a list line, computed.
fn continued_prefix_exec(line: &[char], t: &[char]) -> (r: String)
    requires
        t@ == trim_start(line@),
        list_item(t@) is Some,
        fits(line@),
        !(t@.len() > 0 && is_digit(t@[0]) && item_number(t@) == u32::MAX),
    ensures
        r@ == continued_prefix(line@),
{
    let k = leading_ws_count(line);
    let lead = sub_chars(line, 0, k);
    proof {
        lemma_utf8_len_take_le(line@, k as int);
    }
    let n = utf8_len_of(&lead);
    let count = if n <= line.len() { n } else { line.len() };
    let mut out = sub_chars(line, 0, count);
    assert(out@ == copied_indent(line@));
    if t.len() > 0 && '0' <= t[0] && t[0] <= '9' {
        let dot = ['.', ' '];
        assert(dot@ == seq!['.', ' ']);
        match find_from_exec(t, &dot, 0) {
            Some(d) => {
                proof {
                    lemma_find_from(t@, dot@, 0);
                }
                let num = parse_or_zero(t, d);
                push_decimal(&mut out, (num + 1) as u128);
                out.push('.');
                out.push(' ');
                assert(out@ == copied_indent(line@) + decimal(item_number(t@) + 1) + seq!['.', ' ']);
            },
            None => {},
        }
    } else {
        match list_item_exec(t) {
            Some((p, _)) => {
                extend_chars(&mut out, &p);
            },
            None => {},
        }
    }
    string_of(&out)
}

/// What Enter did, or leaves to the editor.
#[derive(Debug, Clone, PartialEq, Eq)]
pub enum EnterAction {
    /// An empty line was opened below the cursor's line (an image line or
    /// the last row of a table) and the cursor moved to it.
    OpenedLineBelow,
    /// Inside a table: move to the start of this row (none: stay).
    NextTableRow(Option<usize>),
    /// Break the line and start the new line with this list prefix.
    ContinueList(String),
    /// An empty list item: its line was cleared and the cursor moved to its
    /// start, which ends the list.
    EndedList,
    /// A plain line break.
    Newline,
}

/// Enter in the note editor: opens an empty line below an image line or
/// below the last row of a table; moves down a table (past a separator
/// row); continues a list item that has text with the same prefix (a ticked
/// box as an open one, a numbered item with the next number); clears an
/// empty list item; otherwise leaves a plain line break to the editor.
pub fn enter_key(lines: &mut Vec<String>, cursor: &mut (usize, usize)) -> (r: EnterAction)
    requires
        old(cursor).0 < old(lines).len() ==> fits(strings(old(lines)@)[old(cursor).0 as int]),
        !enter_number_overflows(strings(old(lines)@), old(cursor).0 as int),
    ensures
        ({
            let ls = strings(old(lines)@);
            let cl = old(cursor).0 as int;
            let unchanged = final(lines)@ == old(lines)@ && *final(cursor) == *old(cursor);
            match r {
                EnterAction::OpenedLineBelow => enter_opens_line(ls, cl) && strings(final(lines)@)
                    == ls.insert(cl + 1, Seq::empty()) && *final(cursor) == ((cl + 1) as usize, 0usize),
                EnterAction::NextTableRow(n) => enter_moves_in_table(ls, cl) && unchanged && match n {
                    Some(k) => next_table_row(ls, cl) == Some(k as int),
                    None => next_table_row(ls, cl) is None,
                },
                EnterAction::ContinueList(p) => enter_list_item(ls, cl) is Some && (enter_list_item(
                    ls,
                    cl,
                )->0).1 && p@ == continued_prefix(line_at(ls, cl)) && unchanged,
                EnterAction::EndedList => enter_list_item(ls, cl) is Some && !(enter_list_item(
                    ls,
                    cl,
                )->0).1 && strings(final(lines)@) == ls.update(cl, Seq::empty()) && *final(cursor)
                    == (cl as usize, 0usize),
                EnterAction::Newline => !enter_opens_line(ls, cl) && !enter_moves_in_table(ls, cl)
                    && enter_list_item(ls, cl) is None && unchanged,
            }
        }),
{
    let ghost ls = strings(lines@);
    let cl = cursor.0;
    if cl < lines.len() {
        let v = chars_of(lines[cl].as_str());
        let t = trim_start_chars(&v);
        let img = image_ref_exec(&t);
        let row = table_row_exec(&t);
        if img || row {
            let last = if cl + 1 >= lines.len() {
                true
            } else {
                let nv = chars_of(lines[cl + 1].as_str());
                let nt = trim_start_chars(&nv);
                !table_row_exec(&nt)
            };
            if img || last {
                lines.insert(cl + 1, String::new());
                assert(strings(lines@) == ls.insert(cl + 1, Seq::empty()));
                *cursor = (cl + 1, 0);
                return EnterAction::OpenedLineBelow;
            }
            let nv = chars_of(lines[cl + 1].as_str());
            let nt = trim_start_chars(&nv);
            let next = if table_separator_exec(&nt) { cl + 2 } else { cl + 1 };
            if next < lines.len() {
                return EnterAction::NextTableRow(Some(next));
            }
            return EnterAction::NextTableRow(None);
        }
    }
    let line: Vec<char> = if cl < lines.len() { chars_of(lines[cl].as_str()) } else { Vec::new() };
    assert(line@ == line_at(ls, cl as int));
    let t = trim_start_chars(&line);
    match list_item_exec(&t) {
        Some((_, has)) => {
            if t.len() == 0 {
                assert(false);
            }
            if has {
                let p = continued_prefix_exec(&line, &t);
                EnterAction::ContinueList(p)
            } else {
                lines.set(cl, String::new());
                assert(strings(lines@) == ls.update(cl as int, Seq::empty()));
                *cursor = (cl, 0);
                EnterAction::EndedList
            }
        },
        None => EnterAction::Newline,
    }
}

} // verus!
