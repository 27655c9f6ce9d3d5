//! Moving inline image data out of note bodies into `img:` references.
use vstd::prelude::*;
use crate::editor::strings;
use crate::ids::{hyphenated, new_v4_uuid, uuid_text};
use crate::lower::{lowercase, to_lowercase};
use crate::text::{
    chars_of, contains, contains_exec, extend_chars, find, find_char_from, find_char_from_exec,
    find_from_exec, join, join_chars, lemma_find_from, rfind_char, rfind_char_exec, split,
    split_chars, starts_with, starts_with_exec, string_of, sub_chars, trim_start,
    trim_start_chars, utf8_len, utf8_len_reaches, views,
};

verus! {

/// A line of more than 1 KB (UTF-8 bytes) holding an image pattern: `![`
/// together with `](data:` or `](rgba:`.
pub open spec fn image_data_line(line: Seq<char>) -> bool {
    utf8_len(line) > 1024 && contains(line, seq!['!', '[']) && (contains(
        line,
        seq![']', '(', 'd', 'a', 't', 'a', ':'],
    ) || contains(line, seq![']', '(', 'r', 'g', 'b', 'a', ':']))
}

/// Whether a body still holds inline image data: some line of it (split at
/// `\n`) is such a line.
pub open spec fn needs_image_migration(body: Seq<char>) -> bool {
    exists|k: int|
        0 <= k < split(body, '\n').len() && image_data_line(#[trigger] split(body, '\n')[k])
}

/// Whether a note body has inline image data that needs migration: lines
/// over 1 KB with image patterns.
pub fn body_needs_image_migration(body: &str) -> (b: bool)
    ensures
        b == needs_image_migration(body@),
{
    let v = chars_of(body);
    let lines = split_chars(&v, '\n');
    let ghost ls = split(body@, '\n');
    let open = ['!', '['];
    let data = [']', '(', 'd', 'a', 't', 'a', ':'];
    let rgba = [']', '(', 'r', 'g', 'b', 'a', ':'];
    assert(open@ == seq!['!', '[']);
    assert(data@ == seq![']', '(', 'd', 'a', 't', 'a', ':']);
    assert(rgba@ == seq![']', '(', 'r', 'g', 'b', 'a', ':']);
    let mut i: usize = 0;
    while i < lines.len()
        invariant
            views(lines@) == ls,
            ls == split(body@, '\n'),
            i <= lines.len(),
            open@ == seq!['!', '['],
            data@ == seq![']', '(', 'd', 'a', 't', 'a', ':'],
            rgba@ == seq![']', '(', 'r', 'g', 'b', 'a', ':'],
            forall|k: int| 0 <= k < i ==> !image_data_line(#[trigger] ls[k]),
        decreases lines.len() - i,
    {
        assert(ls[i as int] == lines@[i as int]@);
        let line = &lines[i];
        if utf8_len_reaches(line, 1025) && contains_exec(line, &open) && (contains_exec(
            line,
            &data,
        ) || contains_exec(line, &rgba)) {
            assert(image_data_line(ls[i as int]));
            return true;
        }
        i = i + 1;
    }
    false
}

/// One migrated image: its new `img:` id, its format, and its base64 data.
pub type ImageEntry = (String, String, String);

/// The character views of an image entry.
pub open spec fn entry_view(e: ImageEntry) -> (Seq<char>, Seq<char>, Seq<char>) {
    (e.0@, e.1@, e.2@)
}

/// The views of a list of image entries.
pub open spec fn entry_views(v: Seq<ImageEntry>) -> Seq<(Seq<char>, Seq<char>, Seq<char>)> {
    v.map_values(|e: ImageEntry| entry_view(e))
}

/// A line of at least 100 bytes that (after leading white space) starts an
/// image `![alt](src)`: the positions of the first `](` and of the last `)`
/// in the trimmed line, the `)` not before the end of the `](`. Such a line
/// uses up one fresh id; any other line is left as it is.
pub open spec fn image_ref(line: Seq<char>) -> Option<(int, int)> {
    let t = trim_start(line);
    if utf8_len(line) < 100 || !starts_with(t, seq!['!', '[']) {
        None
    } else {
        match (find(t, seq![']', '(']), rfind_char(t, ')')) {
            (Some(a), Some(b)) => if a + 2 <= b {
                Some((a, b))
            } else {
                None
            },
            _ => None,
        }
    }
}

/// The reference text `img:<uuid>` of an id.
pub open spec fn img_ref_text(id: u128) -> Seq<char> {
    seq!['i', 'm', 'g', ':'] + hyphenated(id)
}

/// An image line pointing at `target`: `![alt](target)`.
pub open spec fn image_markdown(alt: Seq<char>, target: Seq<char>) -> Seq<char> {
    seq!['!', '['] + alt + seq![']', '('] + target + seq![')']
}

/// The migration of one candidate line given its fresh id: the new line and
/// the entry it yields. `data:<mime>;..,<b64>` gives the mime type (up to the
/// first `;`, or the first `,`) and the data after the first `,`;
/// `rgba:<w>:<h>:<b64>` gives `rgba:<w>:<h>` and the data. Anything else
/// leaves the line as it was.
pub open spec fn migrate_line(line: Seq<char>, id: u128) -> (Seq<char>, Option<(Seq<char>, Seq<char>, Seq<char>)>) {
    let t = trim_start(line);
    let (a, b) = image_ref(line)->0;
    let src = t.subrange(a + 2, b);
    let alt = t.subrange(2, a);
    let idt = img_ref_text(id);
    let new_line = image_markdown(alt, idt);
    if starts_with(src, seq!['d', 'a', 't', 'a', ':']) {
        match find_char_from(src, ',', 0) {
            Some(comma) => {
                let semi = match find_char_from(src, ';', 0) {
                    Some(x) => x,
                    None => comma,
                };
                (new_line, Some((idt, src.subrange(5, semi), src.skip(comma + 1))))
            },
            None => (line, None),
        }
    } else if starts_with(src, seq!['r', 'g', 'b', 'a', ':']) {
        match find_char_from(src, ':', 5) {
            Some(c2) => match find_char_from(src, ':', c2 + 1) {
                Some(c3) => {
                    let fmt = seq!['r', 'g', 'b', 'a', ':'] + src.subrange(5, c2) + seq![':']
                        + src.subrange(c2 + 1, c3);
                    (new_line, Some((idt, fmt, src.skip(c3 + 1))))
                },
                None => (line, None),
            },
            None => (line, None),
        }
    } else {
        (line, None)
    }
}

/// The number of lines among the first `n` that use up a fresh id.
pub open spec fn candidate_count(lines: Seq<Seq<char>>, n: nat) -> nat
    decreases n,
{
    if n == 0 {
        0
    } else {
        candidate_count(lines, (n - 1) as nat) + if image_ref(lines[n - 1]) is Some {
            1nat
        } else {
            0nat
        }
    }
}

/// The first `n` lines after migration, and the entries they yield, with the
/// candidates taking the ids in order.
pub open spec fn migrate_scan(lines: Seq<Seq<char>>, ids: Seq<u128>, n: nat) -> (Seq<Seq<char>>, Seq<(Seq<char>, Seq<char>, Seq<char>)>)
    decreases n,
{
    if n == 0 {
        (Seq::empty(), Seq::empty())
    } else {
        let (ls, es) = migrate_scan(lines, ids, (n - 1) as nat);
        let line = lines[n - 1];
        if image_ref(line) is Some {
            let (nl, e) = migrate_line(line, ids[candidate_count(lines, (n - 1) as nat) as int]);
            (ls.push(nl), match e {
                Some(x) => es.push(x),
                None => es,
            })
        } else {
            (ls.push(line), es)
        }
    }
}

/// The migrated body (its lines joined by `\n`) and the entries, for the
/// given fresh ids.
pub open spec fn migrated(body: Seq<char>, ids: Seq<u128>) -> (Seq<char>, Seq<(Seq<char>, Seq<char>, Seq<char>)>) {
    let lines = split(body, '\n');
    let (ls, es) = migrate_scan(lines, ids, lines.len());
    (join(ls, seq!['\n']), es)
}

/// The number of fresh ids a body's migration uses.
pub open spec fn ids_needed(body: Seq<char>) -> nat {
    candidate_count(split(body, '\n'), split(body, '\n').len())
}

/// The image reference of a line, computed.
fn image_ref_exec(line: &Vec<char>) -> (r: Option<(usize, usize)>)
    ensures
        match r {
            Some((a, b)) => image_ref(line@) == Some((a as int, b as int)),
            None => image_ref(line@) is None,
        },
{
    if !utf8_len_reaches(line, 100) {
        return None;
    }
    let t = trim_start_chars(line);
    let open = ['!', '['];
    let mid = [']', '('];
    assert(open@ == seq!['!', '[']);
    assert(mid@ == seq![']', '(']);
    if !starts_with_exec(&t, &open) {
        return None;
    }
    match (find_from_exec(&t, &mid, 0), rfind_char_exec(&t, ')')) {
        (Some(a), Some(b)) => if a <= b && b - a >= 2 {
            Some((a, b))
        } else {
            None
        },
        _ => None,
    }
}

/// The migration of one candidate line, computed.
fn migrate_line_exec(line: &Vec<char>, a: usize, b: usize, id: u128) -> (r: (Vec<char>, Option<ImageEntry>))
    requires
        image_ref(line@) == Some((a as int, b as int)),
    ensures
        (r.0@, match r.1 {
            Some(e) => Some(entry_view(e)),
            None => None,
        }) == migrate_line(line@, id),
{
    let t = trim_start_chars(line);
    let ghost ts = trim_start(line@);
    proof {
        lemma_find_from(ts, seq![']', '('], 0);
        assert(ts.subrange(0, 2) == seq!['!', '[']);
        if a < 2 {
            assert(ts.subrange(a as int, a + 2) == seq![']', '(']);
            assert(ts[a as int] == ']');
            assert(false);
        }
        let rf = rfind_char(ts, ')');
        lemma_rfind(ts, ')', ts.len() as int);
    }
    let src = sub_chars(&t, a + 2, b);
    let alt = sub_chars(&t, 2, a);
    let id_text = uuid_text(id);
    let id_chars = chars_of(id_text.as_str());
    let mut idt: Vec<char> = vec!['i', 'm', 'g', ':'];
    extend_chars(&mut idt, &id_chars);
    assert(idt@ == img_ref_text(id));
    let mut new_line: Vec<char> = vec!['!', '['];
    extend_chars(&mut new_line, &alt);
    extend_chars(&mut new_line, &[']', '(']);
    extend_chars(&mut new_line, &idt);
    new_line.push(')');
    assert(new_line@ == image_markdown(alt@, idt@));
    let data = ['d', 'a', 't', 'a', ':'];
    let rgba = ['r', 'g', 'b', 'a', ':'];
    assert(data@ == seq!['d', 'a', 't', 'a', ':']);
    assert(rgba@ == seq!['r', 'g', 'b', 'a', ':']);
    if starts_with_exec(&src, &data) {
        proof {
            lemma_find_from(src@, seq![','], 0);
            lemma_find_from(src@, seq![';'], 0);
            assert(src@.subrange(0, 5) == data@);
            assert forall|j: int| 0 <= j < 5 implies !crate::text::matches_at(
                src@,
                seq![','],
                j,
            ) && !crate::text::matches_at(src@, seq![';'], j) by {
                assert(src@.subrange(j, j + 1)[0] == src@[j]);
                assert(src@[j] == data@[j]);
            }
        }
        match find_char_from_exec(&src, ',', 0) {
            Some(comma) => {
                let semi = match find_char_from_exec(&src, ';', 0) {
                    Some(x) => x,
                    None => comma,
                };
                let mime = sub_chars(&src, 5, semi);
                let b64 = sub_chars(&src, comma + 1, src.len());
                let entry = (string_of(&idt), string_of(&mime), string_of(&b64));
                return (new_line, Some(entry));
            },
            None => {
                return (sub_chars(line, 0, line.len()), None);
            },
        }
    } else if starts_with_exec(&src, &rgba) {
        proof {
            lemma_find_from(src@, seq![':'], 5);
        }
        match find_char_from_exec(&src, ':', 5) {
            Some(c2) => {
                proof {
                    lemma_find_from(src@, seq![':'], c2 + 1);
                }
                match find_char_from_exec(&src, ':', c2 + 1) {
                    Some(c3) => {
                        let mut fmt: Vec<char> = vec!['r', 'g', 'b', 'a', ':'];
                        let p1 = sub_chars(&src, 5, c2);
                        let p2 = sub_chars(&src, c2 + 1, c3);
                        extend_chars(&mut fmt, &p1);
                        fmt.push(':');
                        extend_chars(&mut fmt, &p2);
                        let b64 = sub_chars(&src, c3 + 1, src.len());
                        let entry = (string_of(&idt), string_of(&fmt), string_of(&b64));
                        return (new_line, Some(entry));
                    },
                    None => {
                        return (sub_chars(line, 0, line.len()), None);
                    },
                }
            },
            None => {
                return (sub_chars(line, 0, line.len()), None);
            },
        }
    } else {
        (sub_chars(line, 0, line.len()), None)
    }
}

/// What `rfind_char_before` returns, stated by quantifiers.
proof fn lemma_rfind(s: Seq<char>, c: char, end: int)
    requires
        0 <= end <= s.len(),
    ensures
        crate::text::rfind_char_before(s, c, end) matches Some(k) ==> 0 <= k < end && s[k] == c,
    decreases end,
{
    if end > 0 && s[end - 1] != c {
        lemma_rfind(s, c, end - 1);
    }
}

/// The number of lines that use up a fresh id.
pub fn count_image_candidates(body: &str) -> (n: usize)
    ensures
        n == ids_needed(body@),
{
    let chars = chars_of(body);
    let lines = split_chars(&chars, '\n');
    let ghost ls = split(body@, '\n');
    let mut n: usize = 0;
    let mut i: usize = 0;
    while i < lines.len()
        invariant
            views(lines@) == ls,
            i <= lines.len(),
            n == candidate_count(ls, i as nat),
            n <= i,
        decreases lines.len() - i,
    {
        assert(ls[i as int] == lines@[i as int]@);
        if image_ref_exec(&lines[i]).is_some() {
            n = n + 1;
        }
        i = i + 1;
    }
    n
}

/// Replaces the inline image data of every image line of at least 100 bytes
/// by an `img:<id>` reference, the candidates taking `ids` in order.
/// Returns the new body and, per migrated image, its reference, format and
/// base64 data.
pub fn migrate_body_images_with_ids(body: &str, ids: &[u128]) -> (r: (String, Vec<ImageEntry>))
    requires
        ids.len() == ids_needed(body@),
    ensures
        (r.0@, entry_views(r.1@)) == migrated(body@, ids@),
{
    let chars = chars_of(body);
    let lines = split_chars(&chars, '\n');
    let ghost ls = split(body@, '\n');
    let mut out: Vec<Vec<char>> = Vec::new();
    let mut entries: Vec<ImageEntry> = Vec::new();
    let mut used: usize = 0;
    let mut i: usize = 0;
    while i < lines.len()
        invariant
            views(lines@) == ls,
            ls == split(body@, '\n'),
            ids.len() == candidate_count(ls, ls.len()),
            i <= lines.len(),
            used == candidate_count(ls, i as nat),
            (views(out@), entry_views(entries@)) == migrate_scan(ls, ids@, i as nat),
        decreases lines.len() - i,
    {
        assert(ls[i as int] == lines@[i as int]@);
        proof {
            lemma_count_mono(ls, (i + 1) as nat, ls.len());
        }
        match image_ref_exec(&lines[i]) {
            Some((a, b)) => {
                let (nl, e) = migrate_line_exec(&lines[i], a, b, ids[used]);
                proof {
                    assert(views(out@.push(nl)) == views(out@).push(nl@));
                }
                out.push(nl);
                match e {
                    Some(x) => {
                        proof {
                            assert(entry_views(entries@.push(x)) == entry_views(entries@).push(
                                entry_view(x),
                            ));
                        }
                        entries.push(x);
                    },
                    None => {},
                }
                used = used + 1;
            },
            None => {
                let copy = sub_chars(&lines[i], 0, lines[i].len());
                proof {
                    assert(copy@ == ls[i as int]);
                    assert(views(out@.push(copy)) == views(out@).push(copy@));
                }
                out.push(copy);
            },
        }
        i = i + 1;
    }
    let joined = join_chars(&out, &['\n']);
    assert(['\n']@ == seq!['\n']);
    (string_of(&joined), entries)
}

/// Counting candidates over more lines never gives fewer.
proof fn lemma_count_mono(lines: Seq<Seq<char>>, i: nat, n: nat)
    requires
        i <= n,
    ensures
        candidate_count(lines, i) <= candidate_count(lines, n),
    decreases n - i,
{
    if n > i {
        lemma_count_mono(lines, i, (n - 1) as nat);
    }
}

/// Without candidates, the scan keeps every line and yields nothing.
proof fn lemma_scan_without_candidates(lines: Seq<Seq<char>>, ids: Seq<u128>, n: nat)
    requires
        n <= lines.len(),
        candidate_count(lines, n) == 0,
    ensures
        migrate_scan(lines, ids, n) == (lines.take(n as int), Seq::<(Seq<char>, Seq<char>, Seq<char>)>::empty()),
    decreases n,
{
    if n > 0 {
        lemma_scan_without_candidates(lines, ids, (n - 1) as nat);
        assert(lines.take(n as int) =~= lines.take(n - 1).push(lines[n - 1]));
    }
}

/// A body with no line to migrate (no image line of 100 bytes or more whose
/// source can be cut out) comes back as it was, with no entries.
pub proof fn law_migrate_without_candidates(body: Seq<char>, ids: Seq<u128>)
    requires
        ids_needed(body) == 0,
    ensures
        migrated(body, ids).0 == body,
        migrated(body, ids).1.len() == 0,
{
    let lines = split(body, '\n');
    lemma_scan_without_candidates(lines, ids, lines.len());
    assert(lines.take(lines.len() as int) =~= lines);
    crate::text::lemma_join_split(body, '\n');
}

/// Whether a UUID value is a random (version 4, RFC 4122 variant) UUID.
pub open spec fn is_v4(id: u128) -> bool {
    crate::ids::uuid_version(id) == 4 && crate::ids::uuid_variant_bits(id) == 2
}

/// Replaces inline image data by `img:<uuid>` references with fresh random
/// UUIDs: the result is the migration for some sequence of version-4 ids,
/// one per candidate line.
pub fn migrate_body_images(body: &str) -> (r: (String, Vec<ImageEntry>))
    ensures
        exists|ids: Seq<u128>|
            ids.len() == ids_needed(body@) && (forall|k: int| 0 <= k < ids.len() ==> is_v4(#[trigger] ids[k]))
                && (r.0@, entry_views(r.1@)) == migrated(body@, ids),
{
    let n = count_image_candidates(body);
    let mut ids: Vec<u128> = Vec::new();
    let mut k: usize = 0;
    while k < n
        invariant
            k <= n,
            ids.len() == k,
            forall|j: int| 0 <= j < k ==> is_v4(#[trigger] ids@[j]),
        decreases n - k,
    {
        let id = new_v4_uuid();
        ids.push(id);
        k = k + 1;
    }
    let r = migrate_body_images_with_ids(body, &ids);
    assert(ids@.len() == ids_needed(body@));
    r
}

/// Where an image line points: after its indent, the first `](` and the
/// last `)`.
pub open spec fn ref_bounds(t: Seq<char>) -> Option<(int, int)> {
    match (find(t, seq![']', '(']), rfind_char(t, ')')) {
        (Some(a), Some(b)) => Some((a, b)),
        _ => None,
    }
}

/// The id an image line refers to: what lies between the first `](` and the
/// last `)` of the line after its indent.
pub open spec fn image_id_of(line: Seq<char>) -> Option<Seq<char>> {
    let t = trim_start(line);
    match ref_bounds(t) {
        Some((a, b)) => Some(t.subrange(a + 2, b)),
        None => None,
    }
}

/// Whether the id of an image line can be cut out (the last `)` does not
/// come before the end of the first `](`).
pub open spec fn image_id_cuttable(line: Seq<char>) -> bool {
    ref_bounds(trim_start(line)) matches Some((a, b)) ==> a + 2 <= b
}

/// The id an image line refers to (to copy the image, or to resize it).
pub fn image_ref_id(line: &str) -> (r: Option<String>)
    requires
        image_id_cuttable(line@),
    ensures
        match r {
            Some(id) => image_id_of(line@) == Some(id@),
            None => image_id_of(line@) is None,
        },
{
    let v = chars_of(line);
    let t = trim_start_chars(&v);
    let mid = [']', '('];
    assert(mid@ == seq![']', '(']);
    match (find_from_exec(&t, &mid, 0), rfind_char_exec(&t, ')')) {
        (Some(a), Some(b)) => {
            proof {
                lemma_find_from(t@, mid@, 0);
            }
            let id = sub_chars(&t, a + 2, b);
            Some(string_of(&id))
        },
        _ => None,
    }
}

/// A new image reference `img:<uuid>`, with a fresh random UUID.
fn new_image_ref() -> (r: (String, Ghost<u128>))
    ensures
        is_v4(r.1@),
        r.0@ == img_ref_text(r.1@),
{
    let id = new_v4_uuid();
    let text = uuid_text(id);
    let mut v: Vec<char> = vec!['i', 'm', 'g', ':'];
    let t = chars_of(text.as_str());
    extend_chars(&mut v, &t);
    (string_of(&v), Ghost(id))
}

/// Puts a new image below the cursor's line: a line `![](img:<uuid>)` with
/// a fresh random UUID. A dropped image takes the cursor to its line; a
/// pasted one to the line after it. Returns the reference, under which the
/// image is stored.
pub fn insert_image_line(lines: &mut Vec<String>, cursor: &mut (usize, usize), pasted: bool) -> (r: String)
    requires
        old(cursor).0 < old(lines).len(),
    ensures
        exists|id: u128| is_v4(id) && r@ == img_ref_text(id),
        strings(final(lines)@) == strings(old(lines)@).insert(
            old(cursor).0 + 1,
            image_markdown(Seq::empty(), r@),
        ),
        *final(cursor) == ((old(cursor).0 + if pasted {
            2int
        } else {
            1int
        }) as usize, 0usize),
{
    let (idt, Ghost(id)) = new_image_ref();
    let refs = chars_of(idt.as_str());
    let mut line: Vec<char> = vec!['!', '[', ']', '('];
    extend_chars(&mut line, &refs);
    line.push(')');
    assert(line@ == image_markdown(Seq::empty(), idt@));
    let cl = cursor.0;
    let ghost ls = strings(lines@);
    lines.insert(cl + 1, string_of(&line));
    assert(strings(lines@) == ls.insert(cl + 1, image_markdown(Seq::empty(), idt@)));
    assert(cl + 2 <= lines.len());
    *cursor = (if pasted { cl + 2 } else { cl + 1 }, 0);
    idt
}

/// The type of a dropped image file, by its extension in lower case:
/// `png`, `jpg`/`jpeg`, `gif`, `bmp`, `webp` name their types and `ico` is
/// taken as PNG; anything else is not an image.
pub open spec fn image_mime_of(ext: Seq<char>) -> Option<Seq<char>> {
    if ext == seq!['p', 'n', 'g'] || ext == seq!['i', 'c', 'o'] {
        Some(seq!['i', 'm', 'a', 'g', 'e', '/', 'p', 'n', 'g'])
    } else if ext == seq!['j', 'p', 'g'] || ext == seq!['j', 'p', 'e', 'g'] {
        Some(seq!['i', 'm', 'a', 'g', 'e', '/', 'j', 'p', 'e', 'g'])
    } else if ext == seq!['g', 'i', 'f'] {
        Some(seq!['i', 'm', 'a', 'g', 'e', '/', 'g', 'i', 'f'])
    } else if ext == seq!['b', 'm', 'p'] {
        Some(seq!['i', 'm', 'a', 'g', 'e', '/', 'b', 'm', 'p'])
    } else if ext == seq!['w', 'e', 'b', 'p'] {
        Some(seq!['i', 'm', 'a', 'g', 'e', '/', 'w', 'e', 'b', 'p'])
    } else {
        None
    }
}

/// The type of a dropped file's image data, from its extension (any
/// case); `None` where the file is not an image.
pub fn dropped_image_mime(ext: &str) -> (r: Option<String>)
    ensures
        match r {
            Some(m) => image_mime_of(lowercase(ext@)) == Some(m@),
            None => image_mime_of(lowercase(ext@)) is None,
        },
{
    let lower = to_lowercase(ext);
    let e = chars_of(lower.as_str());
    let png = ['p', 'n', 'g'];
    let ico = ['i', 'c', 'o'];
    let jpg = ['j', 'p', 'g'];
    let jpeg = ['j', 'p', 'e', 'g'];
    let gif = ['g', 'i', 'f'];
    let bmp = ['b', 'm', 'p'];
    let webp = ['w', 'e', 'b', 'p'];
    assert(png@ == seq!['p', 'n', 'g'] && ico@ == seq!['i', 'c', 'o']);
    assert(jpg@ == seq!['j', 'p', 'g'] && jpeg@ == seq!['j', 'p', 'e', 'g']);
    assert(gif@ == seq!['g', 'i', 'f'] && bmp@ == seq!['b', 'm', 'p']);
    assert(webp@ == seq!['w', 'e', 'b', 'p']);
    let kind: Option<Vec<char>> = if crate::text::chars_eq(&e, &png) || crate::text::chars_eq(&e, &ico) {
        Some(vec!['i', 'm', 'a', 'g', 'e', '/', 'p', 'n', 'g'])
    } else if crate::text::chars_eq(&e, &jpg) || crate::text::chars_eq(&e, &jpeg) {
        Some(vec!['i', 'm', 'a', 'g', 'e', '/', 'j', 'p', 'e', 'g'])
    } else if crate::text::chars_eq(&e, &gif) {
        Some(vec!['i', 'm', 'a', 'g', 'e', '/', 'g', 'i', 'f'])
    } else if crate::text::chars_eq(&e, &bmp) {
        Some(vec!['i', 'm', 'a', 'g', 'e', '/', 'b', 'm', 'p'])
    } else if crate::text::chars_eq(&e, &webp) {
        Some(vec!['i', 'm', 'a', 'g', 'e', '/', 'w', 'e', 'b', 'p'])
    } else {
        None
    };
    match kind {
        Some(m) => {
            assert(image_mime_of(lowercase(ext@)) == Some(m@));
            Some(string_of(&m))
        },
        None => None,
    }
}

} // verus!
