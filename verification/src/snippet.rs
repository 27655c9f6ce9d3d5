//! The one-line preview (snippet) of a note body shown in the notes list.
use vstd::prelude::*;
use crate::text::{
    chars_of, contains, contains_exec, ends_with, ends_with_exec, extend_chars, join, join_chars,
    matches_at, matches_at_exec, split, split_chars, starts_with,
    starts_with_exec, string_of, sub_chars, trim, trim_chars, utf8_len, views,
};

verus! {

/// `str::trim_start_matches`: removes every leading repetition of `p`.
pub open spec fn trim_start_matches(s: Seq<char>, p: Seq<char>) -> Seq<char>
    decreases s.len(),
{
    if p.len() > 0 && starts_with(s, p) {
        trim_start_matches(s.skip(p.len() as int), p)
    } else {
        s
    }
}

/// `str::replace(p, "")`: removes the non-overlapping occurrences of `p`,
/// found from left to right.
pub open spec fn remove_all(s: Seq<char>, p: Seq<char>) -> Seq<char>
    decreases s.len(),
{
    if s.len() == 0 {
        s
    } else if p.len() > 0 && matches_at(s, p, 0) {
        remove_all(s.skip(p.len() as int), p)
    } else {
        seq![s[0]] + remove_all(s.drop_first(), p)
    }
}

/// Removes every leading repetition of `p`.
pub fn trim_start_matches_chars(v: &[char], p: &[char]) -> (r: Vec<char>)
    ensures
        r@ == trim_start_matches(v@, p@),
{
    let mut i: usize = 0;
    if p.len() == 0 {
        return sub_chars(v, 0, v.len());
    }
    assert(v@.skip(0) == v@);
    while matches_at_exec(v, p, i)
        invariant
            i <= v.len(),
            p.len() > 0,
            trim_start_matches(v@, p@) == trim_start_matches(v@.skip(i as int), p@),
        decreases v.len() - i,
    {
        assert(v@.skip(i as int).skip(p.len() as int) == v@.skip(i + p.len()));
        assert(v@.skip(i as int).subrange(0, p.len() as int) == v@.subrange(
            i as int,
            i + p.len(),
        ));
        i = i + p.len();
    }
    assert(v@.skip(i as int).len() >= p.len() ==> v@.skip(i as int).subrange(0, p.len() as int)
        == v@.subrange(i as int, i + p.len()));
    sub_chars(v, i, v.len())
}

/// Removes the occurrences of `p`, left to right.
pub fn remove_all_chars(v: &[char], p: &[char]) -> (r: Vec<char>)
    ensures
        r@ == remove_all(v@, p@),
{
    let mut r: Vec<char> = Vec::new();
    let mut i: usize = 0;
    assert(v@.skip(0) == v@);
    assert(r@ + remove_all(v@, p@) == remove_all(v@, p@));
    while i < v.len()
        invariant
            i <= v.len(),
            remove_all(v@, p@) == r@ + remove_all(v@.skip(i as int), p@),
        decreases v.len() - i,
    {
        let ghost rest = v@.skip(i as int);
        assert(rest.len() > 0);
        if p.len() > 0 && matches_at_exec(v, p, i) {
            assert(rest.subrange(0, p.len() as int) == v@.subrange(i as int, i + p.len()));
            assert(rest.skip(p.len() as int) == v@.skip(i + p.len()));
            i = i + p.len();
        } else {
            assert(p.len() > 0 ==> (matches_at(rest, p@, 0) <==> matches_at(v@, p@, i as int))) by {
                if p.len() > 0 && i + p.len() <= v.len() {
                    assert(rest.subrange(0, p.len() as int) == v@.subrange(i as int, i + p.len()));
                }
            }
            assert(rest.drop_first() == v@.skip(i + 1));
            assert(rest[0] == v@[i as int]);
            r.push(v[i]);
            i = i + 1;
        }
    }
    assert(v@.skip(i as int).len() == 0);
    r
}

/// `%%pass`: the line that opens or closes a hidden password block.
pub open spec fn pass_fence() -> Seq<char> {
    seq!['%', '%', 'p', 'a', 's', 's']
}

/// Whether a trimmed line is an embedded image `![..](img:|data:|rgba:..)`.
pub open spec fn is_image_line(t: Seq<char>) -> bool {
    &&& starts_with(t, seq!['!', '['])
    &&& (contains(t, seq![']', '(', 'i', 'm', 'g', ':']) || contains(
        t,
        seq![']', '(', 'd', 'a', 't', 'a', ':'],
    ) || contains(t, seq![']', '(', 'r', 'g', 'b', 'a', ':']))
    &&& ends_with(t, seq![')'])
}

/// Whether a trimmed line is a table separator row such as `|---|:--:|`.
pub open spec fn is_table_separator(t: Seq<char>) -> bool {
    &&& starts_with(t, seq!['|'])
    &&& contains(t, seq!['-'])
    &&& forall|k: int|
        0 <= k < t.len() ==> (t[k] == '|' || t[k] == '-' || t[k] == ':' || t[k] == ' ')
}

/// Whether a trimmed line is a table row `|..|`.
pub open spec fn is_table_row(t: Seq<char>) -> bool {
    starts_with(t, seq!['|']) && ends_with(t, seq!['|'])
}

/// The non-empty trimmed cells of a table row.
pub open spec fn table_cells(t: Seq<char>) -> Seq<Seq<char>> {
    split(t.subrange(1, t.len() - 1), '|').map_values(|c: Seq<char>| trim(c)).filter(
        |c: Seq<char>| c.len() > 0,
    )
}

/// A line's text without list, heading, quote and checkbox markers and
/// without `**` and backticks.
pub open spec fn plain_text(t: Seq<char>) -> Seq<char> {
    let a = trim_start_matches(t, seq!['#', ' ']);
    let b = trim_start_matches(a, seq!['#', '#', ' ']);
    let c = trim_start_matches(b, seq!['#', '#', '#', ' ']);
    let d = trim_start_matches(c, seq!['#', '#', '#', '#', ' ']);
    let e = trim_start_matches(d, seq!['>', ' ']);
    let f = trim_start_matches(e, seq!['-', ' ', '[', ' ', ']', ' ']);
    let g = trim_start_matches(f, seq!['-', ' ', '[', 'x', ']', ' ']);
    let h = trim_start_matches(g, seq!['-', ' ', '[', 'X', ']', ' ']);
    let i = trim_start_matches(h, seq!['-', ' ']);
    remove_all(remove_all(remove_all(i, seq!['*', '*']), seq!['`', '`']), seq!['`'])
}

/// `piece` appended to `clean`, with a space between when `clean` is not empty.
pub open spec fn with_space(clean: Seq<char>, piece: Seq<char>) -> Seq<char> {
    if clean.len() == 0 {
        piece
    } else {
        clean + seq![' '] + piece
    }
}

/// The scan state: text so far, inside a password block, inside a code
/// fence, and whether the scan has stopped.
pub struct SnippetState {
    pub clean: Seq<char>,
    pub in_pass: bool,
    pub in_code: bool,
    pub done: bool,
}

/// The scan after one more line; `None` where a row is a lone `|` (the
/// slice of its inside would run out of bounds there).
pub open spec fn snippet_step(st: SnippetState, line: Seq<char>) -> Option<SnippetState> {
    let t = trim(line);
    if st.done {
        Some(st)
    } else if t == pass_fence() {
        Some(SnippetState { in_pass: !st.in_pass, ..st })
    } else if st.in_pass {
        Some(st)
    } else if starts_with(t, seq!['`', '`', '`']) {
        Some(SnippetState { in_code: !st.in_code, ..st })
    } else if is_image_line(t) {
        Some(SnippetState { clean: with_space(st.clean, seq!['I', 'm', 'a', 'g', 'e']), ..st })
    } else if is_table_separator(t) {
        Some(st)
    } else if is_table_row(t) && t.len() < 2 {
        None
    } else if is_table_row(t) && table_cells(t).len() > 0 {
        Some(
            SnippetState {
                clean: with_space(st.clean, join(table_cells(t), seq![' ', '|', ' '])),
                ..st
            },
        )
    } else {
        let result = trim(plain_text(t));
        let clean = if result.len() > 0 {
            with_space(st.clean, result)
        } else {
            st.clean
        };
        Some(SnippetState { clean, done: utf8_len(clean) >= 60, ..st })
    }
}

/// The scan state after the first `n` lines.
pub open spec fn snippet_scan(lines: Seq<Seq<char>>, n: nat) -> Option<SnippetState>
    decreases n,
{
    if n == 0 {
        Some(SnippetState { clean: Seq::empty(), in_pass: false, in_code: false, done: false })
    } else {
        match snippet_scan(lines, (n - 1) as nat) {
            Some(st) => snippet_step(st, lines[n - 1]),
            None => None,
        }
    }
}

/// The preview of a body: the readable text of its lines (skipping password
/// blocks, code fences and table separators, showing images as `Image`),
/// collected until 60 bytes, cut to 60 characters and trimmed.
pub open spec fn snippet(body: Seq<char>) -> Option<Seq<char>> {
    let lines = split(body, '\n');
    match snippet_scan(lines, lines.len()) {
        Some(st) => Some(trim(if st.clean.len() <= 60 {
            st.clean
        } else {
            st.clean.take(60)
        })),
        None => None,
    }
}

} // verus!

verus! {

/// Once the scan stops, later lines change nothing.
proof fn lemma_scan_done(lines: Seq<Seq<char>>, i: nat, n: nat)
    requires
        i <= n,
        snippet_scan(lines, i) matches Some(st) && st.done,
    ensures
        snippet_scan(lines, n) == snippet_scan(lines, i),
    decreases n - i,
{
    if n > i {
        lemma_scan_done(lines, i, (n - 1) as nat);
    }
}

/// Once the scan fails, it stays failed.
proof fn lemma_scan_none(lines: Seq<Seq<char>>, i: nat, n: nat)
    requires
        i <= n,
        snippet_scan(lines, i) is None,
    ensures
        snippet_scan(lines, n) is None,
    decreases n - i,
{
    if n > i {
        lemma_scan_none(lines, i, (n - 1) as nat);
    }
}

/// Whether line `n` lies inside a password block: after an odd number of
/// `%%pass` lines (a block that is never closed runs to the end).
pub open spec fn inside_pass(lines: Seq<Seq<char>>, n: nat) -> bool
    decreases n,
{
    if n == 0 {
        false
    } else {
        inside_pass(lines, (n - 1) as nat) != (trim(lines[n - 1]) == pass_fence())
    }
}

/// Two line lists that differ only at lines inside password blocks, none of
/// them a `%%pass` line, scan alike line by line.
proof fn lemma_scan_ignores_pass(l1: Seq<Seq<char>>, l2: Seq<Seq<char>>, n: nat)
    requires
        l1.len() == l2.len(),
        n <= l1.len(),
        forall|k: int|
            0 <= k < l1.len() && l1[k] != l2[k] ==> inside_pass(l1, k as nat) && trim(#[trigger] l1[k])
                != pass_fence() && trim(l2[k]) != pass_fence(),
    ensures
        snippet_scan(l1, n) == snippet_scan(l2, n),
        inside_pass(l1, n) == inside_pass(l2, n),
        snippet_scan(l1, n) matches Some(st) ==> (!st.done ==> st.in_pass == inside_pass(l1, n)),
    decreases n,
{
    if n > 0 {
        let k = (n - 1) as nat;
        lemma_scan_ignores_pass(l1, l2, k);
        if l1[k as int] != l2[k as int] {
            assert(inside_pass(l1, k));
        }
    }
}

/// Bodies that differ only at lines inside password blocks (none of those
/// lines a `%%pass` line) have the same preview: what a password block
/// holds never reaches the preview.
pub proof fn law_snippet_hides_pass_blocks(b1: Seq<char>, b2: Seq<char>)
    requires
        split(b1, '\n').len() == split(b2, '\n').len(),
        forall|k: int|
            0 <= k < split(b1, '\n').len() && split(b1, '\n')[k] != split(b2, '\n')[k]
                ==> inside_pass(split(b1, '\n'), k as nat) && trim(#[trigger] split(b1, '\n')[k])
                != pass_fence() && trim(split(b2, '\n')[k]) != pass_fence(),
    ensures
        snippet(b1) == snippet(b2),
{
    let l1 = split(b1, '\n');
    let l2 = split(b2, '\n');
    lemma_scan_ignores_pass(l1, l2, l1.len());
}

/// `piece` appended to `clean` with a separating space.
fn push_with_space(clean: &mut Vec<char>, piece: &[char])
    ensures
        final(clean)@ == with_space(old(clean)@, piece@),
{
    if clean.len() > 0 {
        clean.push(' ');
    }
    extend_chars(clean, piece);
}

/// The non-empty trimmed cells of a row.
fn table_cells_exec(t: &[char]) -> (cells: Vec<Vec<char>>)
    requires
        t.len() >= 2,
    ensures
        views(cells@) == table_cells(t@),
{
    let inner = sub_chars(t, 1, t.len() - 1);
    let parts = split_chars(&inner, '|');
    let ghost trimmed = views(parts@).map_values(|c: Seq<char>| trim(c));
    let ghost nonempty = |c: Seq<char>| c.len() > 0;
    let mut cells: Vec<Vec<char>> = Vec::new();
    let mut k: usize = 0;
    while k < parts.len()
        invariant
            k <= parts.len(),
            trimmed == views(parts@).map_values(|c: Seq<char>| trim(c)),
            nonempty == (|c: Seq<char>| c.len() > 0),
            views(cells@) == trimmed.take(k as int).filter(nonempty),
        decreases parts.len() - k,
    {
        let c = trim_chars(&parts[k]);
        proof {
            reveal_with_fuel(Seq::<_>::filter, 1);
            assert(trimmed.take(k + 1).drop_last() == trimmed.take(k as int));
            assert(trimmed.take(k + 1).last() == c@);
        }
        if c.len() > 0 {
            proof {
                assert(views(cells@.push(c)) == views(cells@).push(c@));
            }
            cells.push(c);
        }
        k = k + 1;
    }
    assert(trimmed.take(parts.len() as int) == trimmed);
    cells
}

/// The plain text of a trimmed line.
fn plain_text_exec(t: &[char]) -> (r: Vec<char>)
    ensures
        r@ == plain_text(t@),
{
    let p1 = ['#', ' '];
    let p2 = ['#', '#', ' '];
    let p3 = ['#', '#', '#', ' '];
    let p4 = ['#', '#', '#', '#', ' '];
    let p5 = ['>', ' '];
    let p6 = ['-', ' ', '[', ' ', ']', ' '];
    let p7 = ['-', ' ', '[', 'x', ']', ' '];
    let p8 = ['-', ' ', '[', 'X', ']', ' '];
    let p9 = ['-', ' '];
    let q1 = ['*', '*'];
    let q2 = ['`', '`'];
    let q3 = ['`'];
    assert(p1@ == seq!['#', ' ']);
    assert(p2@ == seq!['#', '#', ' ']);
    assert(p3@ == seq!['#', '#', '#', ' ']);
    assert(p4@ == seq!['#', '#', '#', '#', ' ']);
    assert(p5@ == seq!['>', ' ']);
    assert(p6@ == seq!['-', ' ', '[', ' ', ']', ' ']);
    assert(p7@ == seq!['-', ' ', '[', 'x', ']', ' ']);
    assert(p8@ == seq!['-', ' ', '[', 'X', ']', ' ']);
    assert(p9@ == seq!['-', ' ']);
    assert(q1@ == seq!['*', '*']);
    assert(q2@ == seq!['`', '`']);
    assert(q3@ == seq!['`']);
    let a = trim_start_matches_chars(t, &p1);
    let b = trim_start_matches_chars(&a, &p2);
    let c = trim_start_matches_chars(&b, &p3);
    let d = trim_start_matches_chars(&c, &p4);
    let e = trim_start_matches_chars(&d, &p5);
    let f = trim_start_matches_chars(&e, &p6);
    let g = trim_start_matches_chars(&f, &p7);
    let h = trim_start_matches_chars(&g, &p8);
    let i = trim_start_matches_chars(&h, &p9);
    let j = remove_all_chars(&i, &q1);
    let k = remove_all_chars(&j, &q2);
    remove_all_chars(&k, &q3)
}

/// Whether every character is `|`, `-`, `:` or a space.
pub(crate) fn only_table_rule_chars(t: &[char]) -> (b: bool)
    ensures
        b == forall|k: int|
            0 <= k < t@.len() ==> (t@[k] == '|' || t@[k] == '-' || t@[k] == ':' || t@[k] == ' '),
{
    let mut k: usize = 0;
    while k < t.len()
        invariant
            k <= t.len(),
            forall|j: int|
                0 <= j < k ==> (t@[j] == '|' || t@[j] == '-' || t@[j] == ':' || t@[j] == ' '),
        decreases t.len() - k,
    {
        let c = t[k];
        if !(c == '|' || c == '-' || c == ':' || c == ' ') {
            return false;
        }
        k = k + 1;
    }
    true
}

/// The scan state after one line; `false` where the spec's step fails.
fn process_line(
    clean: &mut Vec<char>,
    in_pass: &mut bool,
    in_code: &mut bool,
    done: &mut bool,
    line: &[char],
) -> (ok: bool)
    requires
        !*old(done),
    ensures
        ok ==> snippet_step(
            SnippetState {
                clean: old(clean)@,
                in_pass: *old(in_pass),
                in_code: *old(in_code),
                done: *old(done),
            },
            line@,
        ) == Some(
            SnippetState {
                clean: final(clean)@,
                in_pass: *final(in_pass),
                in_code: *final(in_code),
                done: *final(done),
            },
        ),
        !ok ==> snippet_step(
            SnippetState {
                clean: old(clean)@,
                in_pass: *old(in_pass),
                in_code: *old(in_code),
                done: *old(done),
            },
            line@,
        ) is None,
{
    let t = trim_chars(line);
    let fence = ['%', '%', 'p', 'a', 's', 's'];
    let ticks = ['`', '`', '`'];
    let bang = ['!', '['];
    let img = [']', '(', 'i', 'm', 'g', ':'];
    let data = [']', '(', 'd', 'a', 't', 'a', ':'];
    let rgba = [']', '(', 'r', 'g', 'b', 'a', ':'];
    let close = [')'];
    let image_word = ['I', 'm', 'a', 'g', 'e'];
    assert(fence@ == pass_fence());
    assert(ticks@ == seq!['`', '`', '`']);
    assert(bang@ == seq!['!', '[']);
    assert(img@ == seq![']', '(', 'i', 'm', 'g', ':']);
    assert(data@ == seq![']', '(', 'd', 'a', 't', 'a', ':']);
    assert(rgba@ == seq![']', '(', 'r', 'g', 'b', 'a', ':']);
    assert(close@ == seq![')']);
    assert(image_word@ == seq!['I', 'm', 'a', 'g', 'e']);
    if crate::text::chars_eq(&t, &fence) {
        *in_pass = !*in_pass;
        return true;
    }
    if *in_pass {
        return true;
    }
    if starts_with_exec(&t, &ticks) {
        *in_code = !*in_code;
        return true;
    }
    let image = starts_with_exec(&t, &bang) && (contains_exec(&t, &img) || contains_exec(&t, &data)
        || contains_exec(&t, &rgba)) && ends_with_exec(&t, &close);
    if image {
        push_with_space(clean, &image_word);
        return true;
    }
    let bar = ['|'];
    let dash = ['-'];
    let cell_sep = [' ', '|', ' '];
    assert(bar@ == seq!['|']);
    assert(dash@ == seq!['-']);
    assert(cell_sep@ == seq![' ', '|', ' ']);
    let separator = starts_with_exec(&t, &bar) && contains_exec(&t, &dash) && only_table_rule_chars(
        &t,
    );
    if separator {
        return true;
    }
    let row = starts_with_exec(&t, &bar) && ends_with_exec(&t, &bar);
    if row && t.len() < 2 {
        return false;
    }
    if row {
        let cells = table_cells_exec(&t);
        if cells.len() > 0 {
            let joined = join_chars(&cells, &cell_sep);
            push_with_space(clean, &joined);
            return true;
        }
    }
    let plain = plain_text_exec(&t);
    let result = trim_chars(&plain);
    if result.len() > 0 {
        push_with_space(clean, &result);
    }
    *done = crate::text::utf8_len_reaches(clean, 60);
    true
}

/// The preview of a body: the readable text of its lines (skipping
/// password blocks, code-fence lines and table separators, showing embedded
/// images as `Image`), collected until it holds 60 bytes, cut to 60
/// characters and trimmed. The body must not hold a row that is a lone `|`
/// before the preview is complete.
pub fn generate_snippet(body: &str) -> (r: String)
    requires
        snippet(body@) is Some,
    ensures
        snippet(body@) == Some(r@),
{
    let chars = chars_of(body);
    let lines = split_chars(&chars, '\n');
    let ghost ls = split(body@, '\n');
    let mut clean: Vec<char> = Vec::new();
    let mut in_pass = false;
    let mut in_code = false;
    let mut done = false;
    let mut i: usize = 0;
    while i < lines.len()
        invariant_except_break
            !done,
            snippet_scan(ls, i as nat) == Some(
                SnippetState { clean: clean@, in_pass, in_code, done },
            ),
        invariant
            views(lines@) == ls,
            ls == split(body@, '\n'),
            i <= lines.len(),
            snippet(body@) is Some,
        ensures
            snippet_scan(ls, ls.len()) == Some(
                SnippetState { clean: clean@, in_pass, in_code, done },
            ),
        decreases lines.len() - i,
    {
        assert(ls[i as int] == lines@[i as int]@);
        let ok = process_line(&mut clean, &mut in_pass, &mut in_code, &mut done, &lines[i]);
        i = i + 1;
        if !ok {
            proof {
                lemma_scan_none(ls, i as nat, ls.len());
            }
            assert(false);
        }
        if done {
            proof {
                lemma_scan_done(ls, i as nat, ls.len());
            }
            break;
        }
    }
    let head = sub_chars(&clean, 0, if clean.len() < 60 { clean.len() } else { 60 });
    assert(head@ == (if clean@.len() <= 60 { clean@ } else { clean@.take(60) }));
    let t = trim_chars(&head);
    string_of(&t)
}

} // verus!
