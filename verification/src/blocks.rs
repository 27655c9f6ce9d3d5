//! Editing the tables, images and fenced blocks of a note in the editor:
//! adding and removing table rows and columns, deleting an image line,
//! setting a code block's language, and the menu a right-click opens.
use vstd::prelude::*;
use crate::editor::{leading, spaces, strings};
use crate::keys::{clamped_start, is_image_ref, line_at, nonempty_lines};
use crate::snippet::{is_table_row, pass_fence};
use crate::text::{
    chars_eq, chars_of, contains, contains_exec, ends_with, ends_with_exec, extend_chars, join,
    join_chars, leading_ws, leading_ws_count, lemma_leading_ws, split, split_chars, starts_with,
    starts_with_exec, string_of, sub_chars, trim_start, trim_start_chars, views,
};

verus! {

/// Whether a line (after its indent) is a table row `|..|`.
pub open spec fn is_row_line(l: Seq<char>) -> bool {
    is_table_row(trim_start(l))
}

/// The first line of the table around line `i`: going up while the line
/// above is a table row.
pub open spec fn block_start(lines: Seq<Seq<char>>, i: int) -> int
    decreases i,
{
    if 0 < i <= lines.len() && is_row_line(lines[i - 1]) {
        block_start(lines, i - 1)
    } else {
        i
    }
}

/// The last line of the table around line `i`: going down while the line
/// below is a table row.
pub open spec fn block_end(lines: Seq<Seq<char>>, i: int) -> int
    decreases lines.len() - i,
{
    if 0 <= i && i + 1 < lines.len() && is_row_line(lines[i + 1]) {
        block_end(lines, i + 1)
    } else {
        i
    }
}

/// `block_start` stays within `[0, i]`.
proof fn lemma_block_start(lines: Seq<Seq<char>>, i: int)
    requires
        0 <= i,
    ensures
        0 <= block_start(lines, i) <= i,
    decreases i,
{
    if 0 < i <= lines.len() && is_row_line(lines[i - 1]) {
        lemma_block_start(lines, i - 1);
    }
}

/// `block_end` stays within `[i, len - 1]` for a line of the note, and is
/// `i` past the last line.
proof fn lemma_block_end(lines: Seq<Seq<char>>, i: int)
    requires
        0 <= i <= lines.len(),
    ensures
        i <= block_end(lines, i),
        i < lines.len() ==> block_end(lines, i) < lines.len(),
        i == lines.len() ==> block_end(lines, i) == i,
    decreases lines.len() - i,
{
    if 0 <= i && i + 1 < lines.len() && is_row_line(lines[i + 1]) {
        lemma_block_end(lines, i + 1);
    }
}

/// Whether a line is a table row, computed.
fn row_line_exec(l: &String) -> (b: bool)
    ensures
        b == is_row_line(l@),
{
    let v = chars_of(l.as_str());
    let t = trim_start_chars(&v);
    let bar = ['|'];
    assert(bar@ == seq!['|']);
    starts_with_exec(&t, &bar) && ends_with_exec(&t, &bar)
}

/// The first and last lines of the table around line `li`.
fn block_bounds(lines: &Vec<String>, li: usize) -> (r: (usize, usize))
    requires
        li <= lines.len(),
    ensures
        r.0 == block_start(strings(lines@), li as int),
        r.1 == block_end(strings(lines@), li as int),
{
    let ghost ls = strings(lines@);
    let mut start = li;
    while start > 0 && row_line_exec(&lines[start - 1])
        invariant
            start <= li <= lines.len(),
            ls == strings(lines@),
            block_start(ls, start as int) == block_start(ls, li as int),
        decreases start,
    {
        start = start - 1;
    }
    let mut end = li;
    while end < lines.len() && end + 1 < lines.len() && row_line_exec(&lines[end + 1])
        invariant
            li <= end <= lines.len(),
            ls == strings(lines@),
            block_end(ls, end as int) == block_end(ls, li as int),
        decreases lines.len() - end,
    {
        end = end + 1;
    }
    (start, end)
}

/// The number of times `c` occurs in `s`.
pub open spec fn count_char(s: Seq<char>, c: char) -> nat
    decreases s.len(),
{
    if s.len() == 0 {
        0
    } else {
        count_char(s.drop_last(), c) + if s.last() == c {
            1nat
        } else {
            0nat
        }
    }
}

/// One empty cell of a new row: ten spaces and a bar.
pub open spec fn empty_cell() -> Seq<char> {
    spaces(10) + seq!['|']
}

/// `n` empty cells.
pub open spec fn empty_cells(n: nat) -> Seq<char>
    decreases n,
{
    if n == 0 {
        Seq::empty()
    } else {
        empty_cells((n - 1) as nat) + empty_cell()
    }
}

/// The row added below a table line: a bar, then one empty cell per column
/// of that line (its bars less one), or three cells where it has none.
pub open spec fn new_table_row(line: Seq<char>) -> Seq<char> {
    let n = count_char(line, '|');
    if n > 1 {
        seq!['|'] + empty_cells((n - 1) as nat)
    } else {
        seq!['|'] + empty_cells(3)
    }
}

/// Appends an empty cell.
fn push_empty_cell(out: &mut Vec<char>)
    ensures
        final(out)@ == old(out)@ + empty_cell(),
{
    let mut i: usize = 0;
    while i < 10
        invariant
            i <= 10,
            out@ == old(out)@ + spaces(i as nat),
        decreases 10 - i,
    {
        out.push(' ');
        assert(spaces((i + 1) as nat) == spaces(i as nat).push(' '));
        i = i + 1;
    }
    out.push('|');
}

/// The row added below a table line, computed.
fn new_table_row_exec(line: &String) -> (r: String)
    ensures
        r@ == new_table_row(line@),
{
    let v = chars_of(line.as_str());
    let mut bars: usize = 0;
    let mut k: usize = 0;
    while k < v.len()
        invariant
            k <= v.len(),
            bars == count_char(v@.take(k as int), '|'),
            bars <= k,
        decreases v.len() - k,
    {
        assert(v@.take(k + 1).drop_last() == v@.take(k as int));
        if v[k] == '|' {
            bars = bars + 1;
        }
        k = k + 1;
    }
    assert(v@.take(v.len() as int) == v@);
    let cells = if bars > 1 { bars - 1 } else { 3 };
    let mut out: Vec<char> = vec!['|'];
    let mut j: usize = 0;
    while j < cells
        invariant
            j <= cells,
            out@ == seq!['|'] + empty_cells(j as nat),
        decreases cells - j,
    {
        push_empty_cell(&mut out);
        j = j + 1;
    }
    string_of(&out)
}

/// Adds a row below table line `li` and puts the cursor in its first cell.
/// A line past the end changes nothing.
pub fn table_add_row(lines: &mut Vec<String>, cursor: &mut (usize, usize), li: usize)
    ensures
        li < old(lines).len() ==> strings(final(lines)@) == strings(old(lines)@).insert(
            li + 1,
            new_table_row(strings(old(lines)@)[li as int]),
        ) && *final(cursor) == ((li + 1) as usize, 2usize),
        li >= old(lines).len() ==> final(lines)@ == old(lines)@ && *final(cursor) == *old(cursor),
{
    if li < lines.len() {
        let row = new_table_row_exec(&lines[li]);
        let ghost ls = strings(lines@);
        lines.insert(li + 1, row);
        assert(strings(lines@) == ls.insert(li + 1, new_table_row(ls[li as int])));
        *cursor = (li + 1, 2);
    }
}

/// Whether a trimmed line reads as a separator row when adding a column:
/// it has a dash and only bars, dashes, colons and spaces.
pub open spec fn is_rule_line(t: Seq<char>) -> bool {
    &&& contains(t, seq!['-'])
    &&& forall|k: int|
        0 <= k < t.len() ==> (t[k] == '|' || t[k] == '-' || t[k] == ':' || t[k] == ' ')
}

/// Ten dashes and a bar: the separator part of a new column.
pub open spec fn rule_cell() -> Seq<char> {
    Seq::new(10, |_i: int| '-') + seq!['|']
}

/// A table line with one more column.
pub open spec fn column_added(l: Seq<char>) -> Seq<char> {
    if is_rule_line(trim_start(l)) {
        l + rule_cell()
    } else {
        l + empty_cell()
    }
}

/// The lines with a column added to every line of the table around `li`.
pub open spec fn table_with_column(lines: Seq<Seq<char>>, li: int) -> Seq<Seq<char>> {
    let s = block_start(lines, li);
    let e = block_end(lines, li);
    Seq::new(
        lines.len(),
        |k: int|
            if s <= k <= e {
                column_added(lines[k])
            } else {
                lines[k]
            },
    )
}

/// A table line with one more column, computed.
fn column_added_exec(l: &String) -> (r: String)
    ensures
        r@ == column_added(l@),
{
    let v = chars_of(l.as_str());
    let t = trim_start_chars(&v);
    let dash = ['-'];
    assert(dash@ == seq!['-']);
    let rule = contains_exec(&t, &dash) && crate::snippet::only_table_rule_chars(&t);
    let mut out = v;
    if rule {
        let cell = ['-', '-', '-', '-', '-', '-', '-', '-', '-', '-', '|'];
        assert(cell@ == rule_cell());
        extend_chars(&mut out, &cell);
    } else {
        push_empty_cell(&mut out);
    }
    string_of(&out)
}

/// Adds a column to every line of the table around line `li`: a separator
/// line gets ten dashes and a bar, the others an empty cell.
pub fn table_add_col(lines: &mut Vec<String>, li: usize)
    requires
        li < old(lines).len(),
    ensures
        strings(final(lines)@) == table_with_column(strings(old(lines)@), li as int),
{
    let ghost ls = strings(lines@);
    let (start, end) = block_bounds(lines, li);
    proof {
        lemma_block_start(ls, li as int);
        lemma_block_end(ls, li as int);
    }
    let mut k = start;
    while k <= end
        invariant
            start <= k <= end + 1,
            end < lines.len(),
            lines.len() == ls.len(),
            start == block_start(ls, li as int),
            end == block_end(ls, li as int),
            forall|j: int|
                0 <= j < ls.len() ==> #[trigger] strings(lines@)[j] == if start <= j < k {
                    column_added(ls[j])
                } else {
                    ls[j]
                },
        decreases end + 1 - k,
    {
        let ghost prev = strings(lines@);
        assert(prev[k as int] == ls[k as int]);
        let l = column_added_exec(&lines[k]);
        lines.set(k, l);
        assert forall|j: int| 0 <= j < ls.len() implies #[trigger] strings(lines@)[j] == if start <= j
            < k + 1 {
            column_added(ls[j])
        } else {
            ls[j]
        } by {
            if j != k {
                assert(strings(lines@)[j] == prev[j]);
            }
        }
        k = k + 1;
    }
    assert(strings(lines@) =~= table_with_column(ls, li as int));
}

/// Deletes table row `li` (never the last remaining line) and keeps the
/// cursor's line within the lines.
pub fn table_delete_row(lines: &mut Vec<String>, cursor: &mut (usize, usize), li: usize)
    ensures
        li < old(lines).len() && old(lines).len() > 1 ==> {
            &&& final(lines)@ == old(lines)@.remove(li as int)
            &&& final(cursor).1 == old(cursor).1
            &&& final(cursor).0 == if old(cursor).0 >= final(lines).len() {
                (final(lines).len() - 1) as usize
            } else {
                old(cursor).0
            }
        },
        !(li < old(lines).len() && old(lines).len() > 1) ==> final(lines)@ == old(lines)@
            && *final(cursor) == *old(cursor),
{
    if li < lines.len() && lines.len() > 1 {
        lines.remove(li);
        if cursor.0 >= lines.len() {
            cursor.0 = lines.len() - 1;
        }
    }
}

/// The lines with the table around `li` deleted (one empty line kept if
/// none is left).
pub open spec fn table_removed(lines: Seq<Seq<char>>, li: int) -> Seq<Seq<char>> {
    let s = block_start(lines, li);
    let e = block_end(lines, li);
    nonempty_lines(
        lines.take(s) + lines.skip(
            if e + 1 <= lines.len() {
                e + 1
            } else {
                lines.len() as int
            },
        ),
    )
}

/// Deletes the whole table around line `li` and puts the cursor at the
/// start of the line that took its place.
pub fn table_delete(lines: &mut Vec<String>, cursor: &mut (usize, usize), li: usize)
    requires
        li <= old(lines).len(),
    ensures
        strings(final(lines)@) == table_removed(strings(old(lines)@), li as int),
        *final(cursor) == clamped_start(
            block_start(strings(old(lines)@), li as int),
            final(lines).len() as int,
        ),
{
    let ghost ls = strings(lines@);
    let (start, end) = block_bounds(lines, li);
    proof {
        lemma_block_start(ls, li as int);
        lemma_block_end(ls, li as int);
    }
    let stop = if end < lines.len() { end + 1 } else { lines.len() };
    let count = stop - start;
    let mut n: usize = 0;
    while n < count
        invariant
            start <= li <= ls.len(),
            start <= stop <= ls.len(),
            count == stop - start,
            n <= count,
            strings(lines@) == ls.take(start as int) + ls.skip(start + n),
        decreases count - n,
    {
        let ghost before = strings(lines@);
        assert(before.len() == lines.len());
        assert((ls.take(start as int) + ls.skip(start + n)).len() == ls.len() - n);
        lines.remove(start);
        assert(strings(lines@) == before.remove(start as int));
        assert(ls.take(start as int) + ls.skip(start + n + 1) == (ls.take(start as int) + ls.skip(start + n)).remove(start as int));
        n = n + 1;
    }
    if lines.len() == 0 {
        lines.push(String::new());
        assert(strings(lines@) == seq![Seq::<char>::empty()]);
    }
    let row = if start < lines.len() { start } else { lines.len() - 1 };
    *cursor = (row, 0);
}

} // verus!

verus! {

/// Deletes line `li` (an image, from its menu): one empty line stays if
/// none is left, and the cursor's line is kept within the lines.
pub fn delete_line(lines: &mut Vec<String>, cursor: &mut (usize, usize), li: usize)
    ensures
        li < old(lines).len() ==> {
            &&& strings(final(lines)@) == nonempty_lines(strings(old(lines)@).remove(li as int))
            &&& final(cursor).1 == old(cursor).1
            &&& final(cursor).0 == if old(cursor).0 >= final(lines).len() {
                (final(lines).len() - 1) as usize
            } else {
                old(cursor).0
            }
        },
        li >= old(lines).len() ==> final(lines)@ == old(lines)@ && *final(cursor) == *old(cursor),
{
    if li < lines.len() {
        let ghost ls = strings(lines@);
        lines.remove(li);
        assert(strings(lines@) == ls.remove(li as int));
        if lines.len() == 0 {
            lines.push(String::new());
            assert(strings(lines@) == seq![Seq::<char>::empty()]);
        }
        if cursor.0 >= lines.len() {
            cursor.0 = lines.len() - 1;
        }
    }
}

/// The opening fence of a code block in language `lang` (none: empty).
pub open spec fn code_fence(lang: Seq<char>) -> Seq<char> {
    seq!['`', '`', '`'] + lang
}

/// Sets the language of the code block that opens at line `li`.
pub fn set_code_lang(lines: &mut Vec<String>, li: usize, lang: &str)
    ensures
        li < old(lines).len() ==> strings(final(lines)@) == strings(old(lines)@).update(
            li as int,
            code_fence(lang@),
        ),
        li >= old(lines).len() ==> final(lines)@ == old(lines)@,
{
    if li < lines.len() {
        let ghost ls = strings(lines@);
        let mut out = vec!['`', '`', '`'];
        let l = chars_of(lang);
        extend_chars(&mut out, &l);
        lines.set(li, string_of(&out));
        assert(strings(lines@) == ls.update(li as int, code_fence(lang@)));
    }
}

/// The menu a right-click on the cursor's line opens.
#[derive(Debug, Clone, Copy, PartialEq, Eq, Structural)]
pub enum LineMenu {
    /// An attached file `[file:..]`.
    File,
    /// A stored image.
    Image,
    /// A table row.
    TableCell,
    /// Text formatting.
    Format,
}

/// Which menu a right-click on line `cl` opens.
pub open spec fn line_menu_of(lines: Seq<Seq<char>>, cl: int) -> LineMenu {
    let t = trim_start(line_at(lines, cl));
    if starts_with(t, seq!['[', 'f', 'i', 'l', 'e', ':']) && ends_with(t, seq![']']) {
        LineMenu::File
    } else if is_image_ref(t) {
        LineMenu::Image
    } else if is_table_row(t) {
        LineMenu::TableCell
    } else {
        LineMenu::Format
    }
}

/// Which menu a right-click on the cursor's line opens: the file menu, the
/// image menu, the table menu, or the formatting menu.
pub fn line_menu(lines: &Vec<String>, cl: usize) -> (r: LineMenu)
    ensures
        r == line_menu_of(strings(lines@), cl as int),
{
    let v: Vec<char> = if cl < lines.len() { chars_of(lines[cl].as_str()) } else { Vec::new() };
    assert(v@ == line_at(strings(lines@), cl as int));
    let t = trim_start_chars(&v);
    let file = ['[', 'f', 'i', 'l', 'e', ':'];
    let close = [']'];
    let img_open = ['!', '['];
    let img_mid = [']', '(', 'i', 'm', 'g', ':'];
    let paren = [')'];
    let bar = ['|'];
    assert(file@ == seq!['[', 'f', 'i', 'l', 'e', ':'] && close@ == seq![']']);
    assert(img_open@ == seq!['!', '['] && img_mid@ == seq![']', '(', 'i', 'm', 'g', ':']);
    assert(paren@ == seq![')'] && bar@ == seq!['|']);
    if starts_with_exec(&t, &file) && ends_with_exec(&t, &close) {
        LineMenu::File
    } else if starts_with_exec(&t, &img_open) && contains_exec(&t, &img_mid) && ends_with_exec(&t, &paren) {
        LineMenu::Image
    } else if starts_with_exec(&t, &bar) && ends_with_exec(&t, &bar) {
        LineMenu::TableCell
    } else {
        LineMenu::Format
    }
}

/// An open checkbox item's prefix, `- [ ] `.
pub open spec fn open_item() -> Seq<char> {
    seq!['-', ' ', '[', ' ', ']', ' ']
}

/// A ticked checkbox item's prefix, `- [x] `.
pub open spec fn ticked_item() -> Seq<char> {
    seq!['-', ' ', '[', 'x', ']', ' ']
}

/// A checkbox line with its box flipped (the indent kept); other lines
/// unchanged.
pub open spec fn item_toggled(l: Seq<char>) -> Seq<char> {
    let t = trim_start(l);
    if starts_with(t, open_item()) {
        leading(l) + ticked_item() + t.skip(6)
    } else if starts_with(t, ticked_item()) || starts_with(t, seq!['-', ' ', '[', 'X', ']', ' ']) {
        leading(l) + open_item() + t.skip(6)
    } else {
        l
    }
}

/// Ticks or clears the checkbox of line `li` (a click on the box in the
/// note editor).
pub fn toggle_checkbox_item(lines: &mut Vec<String>, li: usize)
    ensures
        li < old(lines).len() ==> strings(final(lines)@) == strings(old(lines)@).update(
            li as int,
            item_toggled(strings(old(lines)@)[li as int]),
        ),
        li >= old(lines).len() ==> final(lines)@ == old(lines)@,
{
    if li < lines.len() {
        let ghost ls = strings(lines@);
        let v = chars_of(lines[li].as_str());
        let k = leading_ws_count(&v);
        let t = sub_chars(&v, k, v.len());
        let open = ['-', ' ', '[', ' ', ']', ' '];
        let ticked = ['-', ' ', '[', 'x', ']', ' '];
        let ticked_upper = ['-', ' ', '[', 'X', ']', ' '];
        assert(open@ == open_item() && ticked@ == ticked_item());
        assert(ticked_upper@ == seq!['-', ' ', '[', 'X', ']', ' ']);
        assert(t@ == trim_start(v@));
        let mut out = sub_chars(&v, 0, k);
        if starts_with_exec(&t, &open) {
            extend_chars(&mut out, &ticked);
        } else if starts_with_exec(&t, &ticked) || starts_with_exec(&t, &ticked_upper) {
            extend_chars(&mut out, &open);
        } else {
            return;
        }
        let rest = sub_chars(&t, 6, t.len());
        extend_chars(&mut out, &rest);
        lines.set(li, string_of(&out));
        assert(strings(lines@) == ls.update(li as int, item_toggled(ls[li as int])));
    }
}

/// The slash-menu entry selected after an arrow key among `count` entries:
/// down wraps from the last to the first, up from the first to the last.
pub open spec fn slash_moved(selected: int, count: int, down: bool) -> int {
    if count == 0 {
        selected
    } else if down {
        (selected + 1) % count
    } else if selected == 0 {
        count - 1
    } else {
        selected - 1
    }
}

/// Moves the slash-menu selection with an arrow key.
pub fn slash_arrow(selected: usize, count: usize, down: bool) -> (r: usize)
    requires
        down && count > 0 ==> selected < usize::MAX,
    ensures
        r == slash_moved(selected as int, count as int, down),
{
    if count == 0 {
        selected
    } else if down {
        (selected + 1) % count
    } else if selected == 0 {
        count - 1
    } else {
        selected - 1
    }
}

} // verus!

verus! {

/// The blocks that the slash menu inserts.
#[derive(Debug, Clone, Copy, PartialEq, Eq, Structural)]
pub enum BlockKind {
    /// A fenced code block.
    Code,
    /// A table of three columns: a header row, a separator and three rows.
    Table,
    /// A hidden password block between `%%pass` lines.
    Password,
}

/// A cell twelve characters wide filled with `c`, and its closing bar.
pub open spec fn wide_cell(c: char) -> Seq<char> {
    Seq::new(12, |_i: int| c) + seq!['|']
}

/// A row of three wide cells filled with `c`.
pub open spec fn wide_row(c: char) -> Seq<char> {
    seq!['|'] + wide_cell(c) + wide_cell(c) + wide_cell(c)
}

/// A code fence without a language.
pub open spec fn bare_fence() -> Seq<char> {
    seq!['`', '`', '`']
}

/// The lines a slash command puts in place of the cursor's line.
pub open spec fn block_lines(kind: BlockKind) -> Seq<Seq<char>> {
    match kind {
        BlockKind::Code => seq![bare_fence(), Seq::empty(), bare_fence()],
        BlockKind::Table => seq![wide_row(' '), wide_row('-'), wide_row(' '), wide_row(' '), wide_row(' ')],
        BlockKind::Password => seq![pass_fence(), Seq::empty(), pass_fence()],
    }
}

/// A wide row, computed.
fn wide_row_exec(c: char) -> (r: String)
    ensures
        r@ == wide_row(c),
{
    let mut out: Vec<char> = vec!['|'];
    let mut cell: usize = 0;
    while cell < 3
        invariant
            cell <= 3,
            out@ == seq!['|'] + if cell == 0 {
                Seq::empty()
            } else if cell == 1 {
                wide_cell(c)
            } else if cell == 2 {
                wide_cell(c) + wide_cell(c)
            } else {
                wide_cell(c) + wide_cell(c) + wide_cell(c)
            },
        decreases 3 - cell,
    {
        let ghost before = out@;
        let mut i: usize = 0;
        while i < 12
            invariant
                i <= 12,
                out@ == before + Seq::new(i as nat, |_i: int| c),
            decreases 12 - i,
        {
            out.push(c);
            assert(Seq::new((i + 1) as nat, |_i: int| c) == Seq::new(i as nat, |_i: int| c).push(c));
            i = i + 1;
        }
        out.push('|');
        cell = cell + 1;
    }
    string_of(&out)
}

/// The lines of a block, computed.
fn block_lines_exec(kind: BlockKind) -> (r: Vec<String>)
    ensures
        strings(r@) == block_lines(kind),
{
    let r = match kind {
        BlockKind::Code => {
            let f = vec!['`', '`', '`'];
            assert(f@ == bare_fence());
            vec![string_of(&f), String::new(), string_of(&f)]
        },
        BlockKind::Table => vec![
            wide_row_exec(' '),
            wide_row_exec('-'),
            wide_row_exec(' '),
            wide_row_exec(' '),
            wide_row_exec(' '),
        ],
        BlockKind::Password => {
            let f = vec!['%', '%', 'p', 'a', 's', 's'];
            assert(f@ == pass_fence());
            vec![string_of(&f), String::new(), string_of(&f)]
        },
    };
    assert(strings(r@) == block_lines(kind));
    r
}

/// Replaces the cursor's line by the block that a slash command inserts. A
/// code or password block puts the cursor on its empty middle line; for a
/// table the cursor stays on the header line (the editor then puts it in
/// the first cell).
pub fn insert_block(lines: &mut Vec<String>, cursor: &mut (usize, usize), kind: BlockKind)
    requires
        old(cursor).0 < old(lines).len(),
    ensures
        strings(final(lines)@) == strings(old(lines)@).take(old(cursor).0 as int) + block_lines(kind)
            + strings(old(lines)@).skip(old(cursor).0 + 1),
        kind != BlockKind::Table ==> *final(cursor) == ((old(cursor).0 + 1) as usize, 0usize),
        kind == BlockKind::Table ==> *final(cursor) == *old(cursor),
{
    let ghost ls = strings(lines@);
    let li = cursor.0;
    let mut block = block_lines_exec(kind);
    let ghost bl = strings(block@);
    let ghost whole = block@;
    assert(bl.len() == whole.len());
    assert(block_lines(kind).len() >= 3);
    let first = block.remove(0);
    assert forall|j: int| 0 <= j < block.len() implies #[trigger] block@[j]@ == bl[j + 1] by {
        assert(block@[j] == whole[j + 1]);
    }
    lines.set(li, first);
    assert(strings(lines@) == ls.take(li as int) + bl.take(1) + ls.skip(li + 1));
    let mut k: usize = 0;
    let n = block.len();
    while k < n
        invariant
            n == block.len(),
            n == bl.len() - 1,
            bl.len() >= 3,
            k <= n,
            li < ls.len(),
            forall|j: int| 0 <= j < n ==> #[trigger] block@[j]@ == bl[j + 1],
            strings(lines@) == ls.take(li as int) + bl.take(k + 1) + ls.skip(li + 1),
        decreases n - k,
    {
        let ghost before = strings(lines@);
        assert(before.len() == lines.len());
        assert(lines.len() == ls.len() + k);
        let l = block[k].clone();
        lines.insert(li + 1 + k, l);
        assert(strings(lines@) == before.insert(li + 1 + k, bl[k + 1]));
        assert(bl.take(k + 2) == bl.take(k + 1).push(bl[k + 1]));
        assert(ls.take(li as int) + bl.take(k + 2) + ls.skip(li + 1) == before.insert(li + 1 + k, bl[k + 1]));
        k = k + 1;
    }
    assert(bl.take(n + 1) == bl);
    if kind != BlockKind::Table {
        *cursor = (li + 1, 0);
    }
}

} // verus!

verus! {

/// The cells of a table line: what lies between its first and last
/// characters (after the indent), split at the bars.
pub open spec fn cells_of(l: Seq<char>) -> Seq<Seq<char>> {
    let t = trim_start(l);
    split(t.subrange(1, t.len() - 1), '|')
}

/// A table line without its cell `c`, rebuilt between bars (the indent is
/// not kept); unchanged where there is no such cell or only one cell.
pub open spec fn column_removed(l: Seq<char>, c: int) -> Seq<char> {
    let cells = cells_of(l);
    if c < cells.len() && cells.len() > 1 {
        seq!['|'] + join(cells.remove(c), seq!['|']) + seq!['|']
    } else {
        l
    }
}

/// The lines with cell `c` taken out of every line of the table around `li`.
pub open spec fn table_without_column(lines: Seq<Seq<char>>, li: int, c: int) -> Seq<Seq<char>> {
    let s = block_start(lines, li);
    let e = block_end(lines, li);
    Seq::new(
        lines.len(),
        |k: int|
            if s <= k <= e {
                column_removed(lines[k], c)
            } else {
                lines[k]
            },
    )
}

/// Whether every line of the table around `li` has at least two characters
/// after its indent (its cells are cut out between the first and the last).
pub open spec fn table_lines_cuttable(lines: Seq<Seq<char>>, li: int) -> bool {
    forall|k: int|
        block_start(lines, li) <= k <= block_end(lines, li) ==> #[trigger] trim_start(lines[k]).len()
            >= 2
}

/// A table line without cell `c`, computed.
fn column_removed_exec(l: &String, c: usize) -> (r: String)
    requires
        trim_start(l@).len() >= 2,
    ensures
        r@ == column_removed(l@, c as int),
{
    let v = chars_of(l.as_str());
    let t = trim_start_chars(&v);
    let inner = sub_chars(&t, 1, t.len() - 1);
    let mut cells = split_chars(&inner, '|');
    if c < cells.len() && cells.len() > 1 {
        let ghost all = cells@;
        cells.remove(c);
        assert(views(cells@) == views(all).remove(c as int));
        let bar = ['|'];
        assert(bar@ == seq!['|']);
        let joined = join_chars(&cells, &bar);
        let mut out = vec!['|'];
        extend_chars(&mut out, &joined);
        out.push('|');
        string_of(&out)
    } else {
        l.clone()
    }
}

/// Takes cell `c` (the cursor's cell) out of every line of the table around
/// line `li`; lines with no such cell, or a single cell, stay as they are.
pub fn table_delete_col(lines: &mut Vec<String>, li: usize, c: usize)
    requires
        li < old(lines).len(),
        table_lines_cuttable(strings(old(lines)@), li as int),
    ensures
        strings(final(lines)@) == table_without_column(strings(old(lines)@), li as int, c as int),
{
    let ghost ls = strings(lines@);
    let (start, end) = block_bounds(lines, li);
    proof {
        lemma_block_start(ls, li as int);
        lemma_block_end(ls, li as int);
    }
    let mut k = start;
    while k <= end
        invariant
            start <= k <= end + 1,
            end < lines.len(),
            lines.len() == ls.len(),
            start == block_start(ls, li as int),
            end == block_end(ls, li as int),
            table_lines_cuttable(ls, li as int),
            forall|j: int|
                0 <= j < ls.len() ==> #[trigger] strings(lines@)[j] == if start <= j < k {
                    column_removed(ls[j], c as int)
                } else {
                    ls[j]
                },
        decreases end + 1 - k,
    {
        let ghost prev = strings(lines@);
        assert(prev[k as int] == ls[k as int]);
        assert(trim_start(ls[k as int]).len() >= 2);
        let l = column_removed_exec(&lines[k], c);
        lines.set(k, l);
        assert forall|j: int| 0 <= j < ls.len() implies #[trigger] strings(lines@)[j] == if start <= j
            < k + 1 {
            column_removed(ls[j], c as int)
        } else {
            ls[j]
        } by {
            if j != k {
                assert(strings(lines@)[j] == prev[j]);
            }
        }
        k = k + 1;
    }
    assert(strings(lines@) =~= table_without_column(ls, li as int, c as int));
}

/// Whether a line is the fence of a block: a code fence (after the indent,
/// starting with three backticks) or a password fence (after the indent,
/// exactly `%%pass`).
pub open spec fn is_fence(l: Seq<char>, code: bool) -> bool {
    if code {
        starts_with(trim_start(l), bare_fence())
    } else {
        trim_start(l) == pass_fence()
    }
}

/// `acc` with line `l` added after a line break; nothing is put before the
/// first non-empty text.
pub open spec fn with_line(acc: Seq<char>, l: Seq<char>) -> Seq<char> {
    if acc.len() == 0 {
        l
    } else {
        acc + seq!['\n'] + l
    }
}

/// The lines from `i` up to the next fence (or the end), gathered onto `acc`.
pub open spec fn gathered(lines: Seq<Seq<char>>, i: int, code: bool, acc: Seq<char>) -> Seq<char>
    decreases lines.len() - i,
{
    if i < 0 || i >= lines.len() || is_fence(lines[i], code) {
        acc
    } else {
        gathered(lines, i + 1, code, with_line(acc, lines[i]))
    }
}

/// The text of the block whose opening fence is line `start`: the lines up
/// to the closing fence (or the end), one per line; none where line `start`
/// is no fence.
pub open spec fn fenced_text(lines: Seq<Seq<char>>, start: int, code: bool) -> Seq<char> {
    if 0 <= start < lines.len() && is_fence(lines[start], code) {
        gathered(lines, start + 1, code, Seq::empty())
    } else {
        Seq::empty()
    }
}

/// Whether a line is a fence, computed.
fn fence_exec(l: &String, code: bool) -> (b: bool)
    ensures
        b == is_fence(l@, code),
{
    let v = chars_of(l.as_str());
    let t = trim_start_chars(&v);
    if code {
        let f = ['`', '`', '`'];
        assert(f@ == bare_fence());
        starts_with_exec(&t, &f)
    } else {
        let f = ['%', '%', 'p', 'a', 's', 's'];
        assert(f@ == pass_fence());
        chars_eq(&t, &f)
    }
}

/// The text a copy button takes from the code block (`code`) or password
/// block that opens at line `start`; `None` where there is nothing to copy.
pub fn copy_block_text(lines: &Vec<String>, start: usize, code: bool) -> (r: Option<String>)
    ensures
        match r {
            Some(t) => t@ == fenced_text(strings(lines@), start as int, code) && t@.len() > 0,
            None => fenced_text(strings(lines@), start as int, code).len() == 0,
        },
{
    let ghost ls = strings(lines@);
    if start >= lines.len() || !fence_exec(&lines[start], code) {
        return None;
    }
    let mut acc: Vec<char> = Vec::new();
    let mut i = start + 1;
    while i < lines.len() && !fence_exec(&lines[i], code)
        invariant
            start < i <= lines.len(),
            ls == strings(lines@),
            gathered(ls, i as int, code, acc@) == fenced_text(ls, start as int, code),
        decreases lines.len() - i,
    {
        let ghost old_acc = acc@;
        assert(gathered(ls, i as int, code, old_acc) == gathered(ls, i + 1, code, with_line(old_acc, ls[i as int])));
        let l = chars_of(lines[i].as_str());
        if acc.len() > 0 {
            acc.push('\n');
        }
        extend_chars(&mut acc, &l);
        assert(acc@ == with_line(old_acc, ls[i as int]));
        i = i + 1;
    }
    if acc.len() == 0 {
        None
    } else {
        Some(string_of(&acc))
    }
}

} // verus!

verus! {

/// Deleting the row just added below a table line gives the lines back.
pub proof fn law_delete_added_row(lines: Seq<Seq<char>>, li: int)
    requires
        0 <= li < lines.len(),
    ensures
        lines.insert(li + 1, new_table_row(lines[li])).remove(li + 1) == lines,
{
    assert(lines.insert(li + 1, new_table_row(lines[li])).remove(li + 1) =~= lines);
}

/// A line made of an indent, a box prefix and text: its indent and its
/// text after the indent.
proof fn lemma_item_parts(l: Seq<char>, p: Seq<char>, rest: Seq<char>)
    requires
        p.len() == 6,
        p[0] == '-',
    ensures
        leading(leading(l) + p + rest) == leading(l),
        trim_start(leading(l) + p + rest) == p + rest,
{
    let k = leading_ws(l) as int;
    let m = leading(l) + p + rest;
    assert(k <= l.len()) by {
        lemma_leading_ws_le(l);
    }
    assert forall|j: int| 0 <= j < k implies crate::text::is_white_space(#[trigger] m[j]) by {
        assert(m[j] == l[j]);
        lemma_leading_ws_prefix(l, j);
    }
    assert(m[k] == '-');
    lemma_leading_ws(m, k);
    assert(leading(m) == m.take(k));
    assert(m.take(k) =~= leading(l));
    assert(trim_start(m) =~= p + rest);
}

/// The leading white space never exceeds the length.
pub(crate) proof fn lemma_leading_ws_le(s: Seq<char>)
    ensures
        leading_ws(s) <= s.len(),
    decreases s.len(),
{
    if s.len() > 0 && crate::text::is_white_space(s[0]) {
        lemma_leading_ws_le(s.drop_first());
    }
}

/// Each character of the leading white space is white space.
pub(crate) proof fn lemma_leading_ws_prefix(s: Seq<char>, j: int)
    requires
        0 <= j < leading_ws(s),
    ensures
        crate::text::is_white_space(s[j]),
    decreases s.len(),
{
    if s.len() > 0 && crate::text::is_white_space(s[0]) && j > 0 {
        lemma_leading_ws_le(s.drop_first());
        assert(s.drop_first()[j - 1] == s[j]);
        lemma_leading_ws_prefix(s.drop_first(), j - 1);
    }
}

/// A line without leading white space is its own text after the indent.
proof fn lemma_line_split(l: Seq<char>)
    ensures
        l == leading(l) + trim_start(l),
{
    lemma_leading_ws_le(l);
    assert(l =~= leading(l) + trim_start(l));
}

/// Clicking a checkbox twice gives the line back, unless its box was an
/// upper-case `[X]` (which comes back lower-case); lines without a box are
/// never changed.
pub proof fn law_checkbox_click_twice(l: Seq<char>)
    requires
        !starts_with(trim_start(l), seq!['-', ' ', '[', 'X', ']', ' ']),
    ensures
        item_toggled(item_toggled(l)) == l,
{
    let t = trim_start(l);
    lemma_line_split(l);
    if starts_with(t, open_item()) {
        let rest = t.skip(6);
        assert(t =~= open_item() + rest) by {
            assert(t.subrange(0, 6) == open_item());
        }
        lemma_item_parts(l, ticked_item(), rest);
        let m = leading(l) + ticked_item() + rest;
        assert(item_toggled(l) == m);
        assert(trim_start(m) == ticked_item() + rest);
        assert(starts_with(trim_start(m), ticked_item())) by {
            assert((ticked_item() + rest).subrange(0, 6) =~= ticked_item());
        }
        assert(!starts_with(trim_start(m), open_item())) by {
            assert((ticked_item() + rest)[3] == 'x');
            assert((ticked_item() + rest).subrange(0, 6)[3] == 'x');
        }
        assert((ticked_item() + rest).skip(6) =~= rest);
        assert(item_toggled(m) == leading(l) + open_item() + rest);
        assert(leading(l) + open_item() + rest =~= leading(l) + t);
    } else if starts_with(t, ticked_item()) {
        let rest = t.skip(6);
        assert(t =~= ticked_item() + rest) by {
            assert(t.subrange(0, 6) == ticked_item());
        }
        lemma_item_parts(l, open_item(), rest);
        let m = leading(l) + open_item() + rest;
        assert(item_toggled(l) == m);
        assert(starts_with(trim_start(m), open_item())) by {
            assert((open_item() + rest).subrange(0, 6) =~= open_item());
        }
        assert((open_item() + rest).skip(6) =~= rest);
        assert(item_toggled(m) == leading(l) + ticked_item() + rest);
        assert(leading(l) + ticked_item() + rest =~= leading(l) + t);
    }
}

/// Bars are counted piece by piece.
proof fn lemma_count_char_concat(a: Seq<char>, b: Seq<char>, c: char)
    ensures
        count_char(a + b, c) == count_char(a, c) + count_char(b, c),
    decreases b.len(),
{
    if b.len() > 0 {
        assert((a + b).drop_last() =~= a + b.drop_last());
        assert((a + b).last() == b.last());
        lemma_count_char_concat(a, b.drop_last(), c);
    } else {
        assert(a + b =~= a);
    }
}

/// A text of spaces and bars holds only spaces and bars.
pub open spec fn spaces_and_bars(s: Seq<char>) -> bool {
    forall|k: int| 0 <= k < s.len() ==> s[k] == ' ' || s[k] == '|'
}

/// `n` empty cells hold `n` bars, only spaces and bars, end with a bar
/// (when `n > 0`) and take eleven characters each.
proof fn lemma_empty_cells(n: nat)
    ensures
        count_char(empty_cells(n), '|') == n,
        spaces_and_bars(empty_cells(n)),
        empty_cells(n).len() == 11 * n,
        n > 0 ==> empty_cells(n).last() == '|',
    decreases n,
{
    if n > 0 {
        lemma_empty_cells((n - 1) as nat);
        let cell = empty_cell();
        assert(count_char(spaces(10), '|') == 0) by {
            assert forall|j: nat| j <= 10 implies count_char(#[trigger] spaces(j), '|') == 0 by {
                lemma_spaces_no_bar(j);
            }
        }
        assert(cell.drop_last() =~= spaces(10));
        assert(count_char(cell, '|') == 1);
        lemma_count_char_concat(empty_cells((n - 1) as nat), cell, '|');
        let e = empty_cells(n);
        assert(e == empty_cells((n - 1) as nat) + cell);
        assert forall|k: int| 0 <= k < e.len() implies e[k] == ' ' || e[k] == '|' by {
            if k < empty_cells((n - 1) as nat).len() {
                assert(e[k] == empty_cells((n - 1) as nat)[k]);
            } else {
                assert(e[k] == cell[k - empty_cells((n - 1) as nat).len()]);
            }
        }
    }
}

/// Spaces hold no bar.
proof fn lemma_spaces_no_bar(j: nat)
    ensures
        count_char(spaces(j), '|') == 0,
    decreases j,
{
    if j > 0 {
        assert(spaces(j).drop_last() =~= spaces((j - 1) as nat));
        lemma_spaces_no_bar((j - 1) as nat);
    }
}

/// The row added below a table line has one empty cell per column: as many
/// bars as that line when it has two or more (three cells, so four bars,
/// when it has fewer); it holds only spaces and bars, starts and ends with
/// a bar, and each cell is eleven characters wide.
pub proof fn law_new_table_row_matches_columns(line: Seq<char>)
    ensures
        count_char(line, '|') > 1 ==> count_char(new_table_row(line), '|') == count_char(line, '|'),
        count_char(line, '|') <= 1 ==> count_char(new_table_row(line), '|') == 4,
        spaces_and_bars(new_table_row(line)),
        new_table_row(line)[0] == '|',
        new_table_row(line).last() == '|',
        new_table_row(line).len() == 1 + 11 * (count_char(new_table_row(line), '|') - 1),
{
    let n = count_char(line, '|');
    let cells: nat = if n > 1 {
        (n - 1) as nat
    } else {
        3
    };
    lemma_empty_cells(cells);
    let row = new_table_row(line);
    assert(row == seq!['|'] + empty_cells(cells));
    lemma_count_char_concat(seq!['|'], empty_cells(cells), '|');
    let bar = seq!['|'];
    assert(bar.drop_last() =~= Seq::<char>::empty());
    assert(bar.last() == '|');
    assert(count_char(Seq::<char>::empty(), '|') == 0);
    assert(count_char(bar, '|') == count_char(bar.drop_last(), '|') + 1);
    assert(count_char(seq!['|'], '|') == 1);
    assert forall|k: int| 0 <= k < row.len() implies row[k] == ' ' || row[k] == '|' by {
        if k > 0 {
            assert(row[k] == empty_cells(cells)[k - 1]);
        }
    }
    assert(row.last() == empty_cells(cells).last());
}

} // verus!
