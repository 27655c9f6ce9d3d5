//! Small text utilities: word bounds, character-to-byte offsets, shortened
//! file names, and the names given to copies.
use vstd::prelude::*;
use crate::text::{
    char_width, chars_of, extend_chars, is_white_space, lemma_utf8_len_take_le,
    lemma_utf8_len_take_step, rfind_char, rfind_char_exec, string_of, sub_chars, utf8_len,
    utf8_len_of,
};
use crate::size::{decimal, push_decimal};

verus! {

/// The bounds `[start, end)` of the run of characters around `col` that are
/// all white space or all not white space (a word, or the gap between
/// words). A column at or past the end gives the empty range at the end.
pub fn find_word_bounds(line: &str, col: usize) -> (r: (usize, usize))
    ensures
        ({
            let s = line@;
            let c = if col < s.len() { col as int } else { s.len() as int };
            if c >= s.len() {
                r.0 == c && r.1 == c
            } else {
                &&& r.0 <= c < r.1 <= s.len()
                &&& forall|k: int|
                    r.0 <= k < r.1 ==> is_white_space(#[trigger] s[k]) == is_white_space(s[c])
                &&& (r.0 == 0 || is_white_space(s[r.0 - 1]) != is_white_space(s[c]))
                &&& (r.1 == s.len() || is_white_space(s[r.1 as int]) != is_white_space(s[c]))
            }
        }),
{
    let chars = chars_of(line);
    let col = if col < chars.len() { col } else { chars.len() };
    if col >= chars.len() {
        return (col, col);
    }
    let is_space = chars[col].is_whitespace();
    let mut start = col;
    let mut end = col;
    while start > 0 && chars[start - 1].is_whitespace() == is_space
        invariant
            start <= col < chars.len(),
            is_space == is_white_space(chars@[col as int]),
            forall|k: int| start <= k <= col ==> is_white_space(#[trigger] chars@[k]) == is_space,
        decreases start,
    {
        start = start - 1;
    }
    while end < chars.len() && chars[end].is_whitespace() == is_space
        invariant
            col <= end <= chars.len(),
            is_space == is_white_space(chars@[col as int]),
            forall|k: int| col <= k < end ==> is_white_space(#[trigger] chars@[k]) == is_space,
        decreases chars.len() - end,
    {
        end = end + 1;
    }
    (start, end)
}

/// The byte offset of character `char_idx` in `s`, or the byte length of
/// `s` when `char_idx` is past its end.
pub fn char_to_byte_static(s: &str, char_idx: usize) -> (b: usize)
    requires
        crate::text::fits(s@),
    ensures
        b == utf8_len(if char_idx < s@.len() { s@.take(char_idx as int) } else { s@ }),
{
    let chars = chars_of(s);
    let n = if char_idx < chars.len() { char_idx } else { chars.len() };
    let mut b: usize = 0;
    let mut i: usize = 0;
    while i < n
        invariant
            i <= n <= chars.len(),
            chars@ == s@,
            b == utf8_len(chars@.take(i as int)),
            crate::text::fits(s@),
        decreases n - i,
    {
        proof {
            lemma_utf8_len_take_step(chars@, i as int);
            lemma_utf8_len_take_le(chars@, i + 1);
        }
        b = b + char_width(chars[i]);
        i = i + 1;
    }
    assert(chars@.take(chars.len() as int) == chars@);
    b
}

/// The extension of a file name: from its last `.` on, or empty.
pub open spec fn extension(name: Seq<char>) -> Seq<char> {
    match rfind_char(name, '.') {
        Some(k) => name.skip(k),
        None => Seq::empty(),
    }
}

/// `a - b`, or 0 when `b > a`.
pub open spec fn saturating_sub(a: int, b: int) -> int {
    if a > b {
        a - b
    } else {
        0
    }
}

/// A file name shortened to about `max_len` characters: unchanged if it fits;
/// otherwise the first characters, `...` and the extension, leaving room
/// for the extension's bytes and the dots (only `...` and the extension if
/// no room is left).
pub open spec fn truncated_name(name: Seq<char>, max_len: int) -> Seq<char> {
    if name.len() <= max_len {
        name
    } else {
        let ext = extension(name);
        let stem_max = saturating_sub(max_len, (utf8_len(ext) + 3) as int);
        if stem_max == 0 {
            seq!['.', '.', '.'] + ext
        } else {
            (if stem_max < name.len() {
                name.take(stem_max)
            } else {
                name
            }) + seq!['.', '.', '.'] + ext
        }
    }
}

/// Shortens a file name for display, keeping its extension.
pub fn truncate_filename(name: &str, max_len: usize) -> (r: String)
    requires
        crate::text::fits(name@),
    ensures
        r@ == truncated_name(name@, max_len as int),
{
    let chars = chars_of(name);
    if chars.len() <= max_len {
        return string_of(&chars);
    }
    let ext = match rfind_char_exec(&chars, '.') {
        Some(k) => sub_chars(&chars, k, chars.len()),
        None => Vec::new(),
    };
    assert(ext@ == extension(name@));
    proof {
        if let Some(k) = rfind_char(name@, '.') {
            crate::text::lemma_fits_subrange(name@, k, name@.len() as int);
        }
    }
    let ext_bytes = utf8_len_of(&ext);
    let room = ext_bytes + 3;
    let stem_max = if max_len > room { max_len - room } else { 0 };
    let mut out: Vec<char> = Vec::new();
    if stem_max > 0 {
        let take = if stem_max < chars.len() { stem_max } else { chars.len() };
        out = sub_chars(&chars, 0, take);
    }
    extend_chars(&mut out, &['.', '.', '.']);
    extend_chars(&mut out, &ext);
    proof {
        assert(['.', '.', '.']@ == seq!['.', '.', '.']);
    }
    string_of(&out)
}

/// The name of a copy: the name followed by ` (copy)`.
pub open spec fn copy_name_text(name: Seq<char>) -> Seq<char> {
    name + seq![' ', '(', 'c', 'o', 'p', 'y', ')']
}

/// The name given to a pasted copy of a note or folder.
pub fn copy_name(name: &str) -> (r: String)
    ensures
        r@ == copy_name_text(name@),
{
    let mut out = chars_of(name);
    extend_chars(&mut out, &[' ', '(', 'c', 'o', 'p', 'y', ')']);
    proof {
        assert([' ', '(', 'c', 'o', 'p', 'y', ')']@ == seq![' ', '(', 'c', 'o', 'p', 'y', ')']);
    }
    string_of(&out)
}

/// The file name tried the `i`-th time a name is taken: the stem, ` (`, `i`
/// in decimal and `)`, then a dot and the extension where there is one.
pub open spec fn numbered_name(stem: Seq<char>, ext: Seq<char>, i: nat) -> Seq<char> {
    let base = stem + seq![' ', '('] + decimal(i) + seq![')'];
    if ext.len() == 0 {
        base
    } else {
        base + seq!['.'] + ext
    }
}

/// The `i`-th other name for a file whose name is taken.
pub fn numbered_file_name(stem: &str, ext: &str, i: u64) -> (r: String)
    ensures
        r@ == numbered_name(stem@, ext@, i as nat),
{
    let mut out = chars_of(stem);
    out.push(' ');
    out.push('(');
    push_decimal(&mut out, i as u128);
    out.push(')');
    let e = chars_of(ext);
    if e.len() > 0 {
        out.push('.');
        extend_chars(&mut out, &e);
    }
    string_of(&out)
}

} // verus!
