//! Note previews in the notes list and their sort order.
use vstd::prelude::*;
use crate::lower::{lowercase, to_lowercase};
use crate::text::chars_of;
use crate::types::SortMode;

verus! {

/// The kinds of note.
#[derive(Debug, Clone, Copy, PartialEq, Eq, Structural)]
pub enum NoteType {
    Text,
    Password,
    Canvas,
    File,
}

/// The debug name of a note kind (what the type sort compares).
pub open spec fn kind_name(t: NoteType) -> Seq<char> {
    match t {
        NoteType::Text => seq!['T', 'e', 'x', 't'],
        NoteType::Password => seq!['P', 'a', 's', 's', 'w', 'o', 'r', 'd'],
        NoteType::Canvas => seq!['C', 'a', 'n', 'v', 'a', 's'],
        NoteType::File => seq!['F', 'i', 'l', 'e'],
    }
}

/// What the notes list shows of a note: its id, title, one-line snippet,
/// pin, last change (as a timestamp) and kind.
pub struct NotePreview {
    pub id: u128,
    pub title: String,
    pub snippet: String,
    pub is_pinned: bool,
    pub modified_at: i64,
    pub note_type: NoteType,
}

/// Three-way comparison of integers: -1, 0 or 1.
pub open spec fn int_order(a: int, b: int) -> int {
    if a < b {
        -1
    } else if a > b {
        1
    } else {
        0
    }
}

/// Lexicographic three-way comparison of texts by code point (the order of
/// `String`, whose UTF-8 bytes compare in the same order).
pub open spec fn lex_order(a: Seq<char>, b: Seq<char>) -> int
    decreases a.len(),
{
    if a.len() == 0 && b.len() == 0 {
        0
    } else if a.len() == 0 {
        -1
    } else if b.len() == 0 {
        1
    } else if (a[0] as u32) != (b[0] as u32) {
        int_order(a[0] as u32 as int, b[0] as u32 as int)
    } else {
        lex_order(a.drop_first(), b.drop_first())
    }
}

/// Swapping the arguments flips the comparison.
pub proof fn lemma_lex_order_flip(a: Seq<char>, b: Seq<char>)
    ensures
        lex_order(a, b) == -lex_order(b, a),
    decreases a.len(),
{
    if a.len() > 0 && b.len() > 0 && (a[0] as u32) == (b[0] as u32) {
        lemma_lex_order_flip(a.drop_first(), b.drop_first());
    }
}

/// The order is transitive.
pub proof fn lemma_lex_order_trans(a: Seq<char>, b: Seq<char>, c: Seq<char>)
    requires
        lex_order(a, b) <= 0,
        lex_order(b, c) <= 0,
    ensures
        lex_order(a, c) <= 0,
    decreases a.len(),
{
    if a.len() > 0 && b.len() > 0 && c.len() > 0 && (a[0] as u32) == (b[0] as u32) && (b[0] as u32)
        == (c[0] as u32) {
        lemma_lex_order_trans(a.drop_first(), b.drop_first(), c.drop_first());
    }
}

/// Equal comparison means equal texts.
pub proof fn lemma_lex_order_zero(a: Seq<char>, b: Seq<char>)
    requires
        lex_order(a, b) == 0,
    ensures
        a == b,
    decreases a.len(),
{
    if a.len() > 0 && b.len() > 0 {
        lemma_lex_order_zero(a.drop_first(), b.drop_first());
        vstd::utf8::char_u32_cast(a[0], a[0] as u32);
        vstd::utf8::char_u32_cast(b[0], b[0] as u32);
        assert(a == seq![a[0]] + a.drop_first());
        assert(b == seq![b[0]] + b.drop_first());
    }
}

/// A text compares equal to itself.
pub proof fn lemma_lex_order_refl(a: Seq<char>)
    ensures
        lex_order(a, a) == 0,
    decreases a.len(),
{
    if a.len() > 0 {
        lemma_lex_order_refl(a.drop_first());
    }
}

/// A text comes before every longer text that starts with it: if `a` is a
/// proper prefix of `b`, then `a < b` (and `b > a`), as for `String`.
pub proof fn law_lex_order_prefix(a: Seq<char>, b: Seq<char>)
    requires
        a.len() < b.len(),
        b.take(a.len() as int) == a,
    ensures
        lex_order(a, b) == -1,
        lex_order(b, a) == 1,
    decreases a.len(),
{
    if a.len() > 0 {
        assert(b[0] == a[0]) by {
            assert(b.take(a.len() as int)[0] == b[0]);
        }
        assert(b.drop_first().take(a.drop_first().len() as int) =~= a.drop_first()) by {
            assert forall|k: int| 0 <= k < a.len() - 1 implies b.drop_first()[k] == a.drop_first()[k] by {
                assert(b.take(a.len() as int)[k + 1] == b[k + 1]);
            }
        }
        law_lex_order_prefix(a.drop_first(), b.drop_first());
    }
    lemma_lex_order_flip(a, b);
}

/// Texts that agree up to position `i` and differ there are ordered by the
/// code points at `i`.
pub proof fn law_lex_order_first_difference(a: Seq<char>, b: Seq<char>, i: int)
    requires
        0 <= i < a.len(),
        i < b.len(),
        a.take(i) == b.take(i),
        a[i] != b[i],
    ensures
        lex_order(a, b) == (if (a[i] as u32) < (b[i] as u32) {
            -1int
        } else {
            1int
        }),
    decreases i,
{
    vstd::utf8::char_u32_cast(a[i], a[i] as u32);
    vstd::utf8::char_u32_cast(b[i], b[i] as u32);
    if i > 0 {
        assert(a[0] == b[0]) by {
            assert(a.take(i)[0] == a[0]);
            assert(b.take(i)[0] == b[0]);
        }
        assert(a.drop_first().take(i - 1) =~= b.drop_first().take(i - 1)) by {
            assert forall|k: int| 0 <= k < i - 1 implies a.drop_first()[k] == b.drop_first()[k] by {
                assert(a.take(i)[k + 1] == a[k + 1]);
                assert(b.take(i)[k + 1] == b[k + 1]);
            }
        }
        law_lex_order_first_difference(a.drop_first(), b.drop_first(), i - 1);
    }
}

/// In a list sorted by name A-Z, a note whose lower-case title is a proper
/// prefix of another's comes first (when both are pinned or both are not);
/// sorted Z-A it comes last.
pub proof fn law_name_sort_prefix_first(mode: SortMode, s: Seq<NotePreview>, i: int, j: int)
    requires
        mode == SortMode::NameAZ || mode == SortMode::NameZA,
        sorted_by(mode, s),
        0 <= i < s.len(),
        0 <= j < s.len(),
        s[i].is_pinned == s[j].is_pinned,
        lowercase(s[i].title@).len() < lowercase(s[j].title@).len(),
        lowercase(s[j].title@).take(lowercase(s[i].title@).len() as int) == lowercase(s[i].title@),
    ensures
        mode == SortMode::NameAZ ==> i < j,
        mode == SortMode::NameZA ==> j < i,
{
    law_lex_order_prefix(lowercase(s[i].title@), lowercase(s[j].title@));
    if i == j {
    } else if mode == SortMode::NameAZ && j < i {
        assert(key_order(mode, sort_key(s[j]), sort_key(s[i])) <= 0);
    } else if mode == SortMode::NameZA && i < j {
        assert(key_order(mode, sort_key(s[i]), sort_key(s[j])) <= 0);
    }
}

/// What a note is compared by: pin, last change, lower-case title, kind.
pub struct SortKey {
    pub pinned: bool,
    pub modified: i64,
    pub lower_title: Seq<char>,
    pub kind: Seq<char>,
}

/// The sort key of a preview.
pub open spec fn sort_key(n: NotePreview) -> SortKey {
    SortKey {
        pinned: n.is_pinned,
        modified: n.modified_at,
        lower_title: lowercase(n.title@),
        kind: kind_name(n.note_type),
    }
}

/// The list order: pinned notes first; then by the sort mode (latest change
/// first; earliest change first; title A-Z or Z-A, case-insensitively; kind
/// name, then title). -1 puts `a` first, 1 puts `b` first.
pub open spec fn key_order(mode: SortMode, a: SortKey, b: SortKey) -> int {
    if a.pinned != b.pinned {
        if a.pinned {
            -1
        } else {
            1
        }
    } else {
        match mode {
            SortMode::Modified => int_order(b.modified as int, a.modified as int),
            SortMode::Created => int_order(a.modified as int, b.modified as int),
            SortMode::NameAZ => lex_order(a.lower_title, b.lower_title),
            SortMode::NameZA => lex_order(b.lower_title, a.lower_title),
            SortMode::Type => {
                let c = lex_order(a.kind, b.kind);
                if c != 0 {
                    c
                } else {
                    lex_order(a.lower_title, b.lower_title)
                }
            },
        }
    }
}

/// Swapping flips the comparison.
pub proof fn lemma_key_order_flip(mode: SortMode, a: SortKey, b: SortKey)
    ensures
        key_order(mode, a, b) == -key_order(mode, b, a),
{
    lemma_lex_order_flip(a.lower_title, b.lower_title);
    lemma_lex_order_flip(a.kind, b.kind);
}

/// The comparison is transitive.
pub proof fn lemma_key_order_trans(mode: SortMode, a: SortKey, b: SortKey, c: SortKey)
    requires
        key_order(mode, a, b) <= 0,
        key_order(mode, b, c) <= 0,
    ensures
        key_order(mode, a, c) <= 0,
{
    lemma_key_order_flip(mode, a, b);
    lemma_key_order_flip(mode, b, c);
    lemma_key_order_flip(mode, a, c);
    if a.pinned == b.pinned && b.pinned == c.pinned {
        match mode {
            SortMode::NameAZ => lemma_lex_order_trans(a.lower_title, b.lower_title, c.lower_title),
            SortMode::NameZA => lemma_lex_order_trans(c.lower_title, b.lower_title, a.lower_title),
            SortMode::Type => {
                lemma_lex_order_flip(a.kind, b.kind);
                lemma_lex_order_flip(b.kind, c.kind);
                lemma_lex_order_trans(a.kind, b.kind, c.kind);
                if lex_order(a.kind, b.kind) == 0 {
                    lemma_lex_order_zero(a.kind, b.kind);
                }
                if lex_order(b.kind, c.kind) == 0 {
                    lemma_lex_order_zero(b.kind, c.kind);
                }
                if lex_order(a.kind, c.kind) == 0 {
                    lemma_lex_order_zero(a.kind, c.kind);
                    lemma_lex_order_trans(c.kind, b.kind, a.kind);
                    lemma_lex_order_flip(a.kind, c.kind);
                    if lex_order(a.kind, b.kind) != 0 {
                        lemma_lex_order_trans(b.kind, a.kind, c.kind);
                    }
                    lemma_lex_order_trans(a.lower_title, b.lower_title, c.lower_title);
                }
            },
            _ => {},
        }
    }
}

} // verus!

verus! {

/// The list is in order under the sort mode.
pub open spec fn sorted_by(mode: SortMode, s: Seq<NotePreview>) -> bool {
    forall|a: int, b: int|
        0 <= a < b < s.len() ==> key_order(mode, sort_key(#[trigger] s[a]), sort_key(#[trigger] s[b]))
            <= 0
}

/// `perm` says where each element of `new` stood in `old`: it is a
/// one-to-one map onto the positions of `old`, and elements that compare
/// equal keep their old relative order.
pub open spec fn stable_rearrangement(mode: SortMode, old: Seq<NotePreview>, new: Seq<NotePreview>, perm: Seq<int>) -> bool {
    &&& new.len() == old.len()
    &&& perm.len() == new.len()
    &&& forall|k: int| 0 <= k < perm.len() ==> 0 <= #[trigger] perm[k] < old.len()
    &&& forall|k: int| 0 <= k < new.len() ==> #[trigger] new[k] == old[perm[k]]
    &&& forall|a: int, b: int| 0 <= a < b < perm.len() ==> #[trigger] perm[a] != #[trigger] perm[b]
    &&& forall|a: int, b: int|
        0 <= a < b < new.len() && key_order(mode, sort_key(#[trigger] new[a]), sort_key(
            #[trigger] new[b],
        )) == 0 ==> perm[a] < perm[b]
}

/// The sort key, computed.
struct ExecKey {
    pinned: bool,
    modified: i64,
    lower_title: Vec<char>,
    kind: Vec<char>,
}

/// The spec view of a computed key.
spec fn key_view(k: ExecKey) -> SortKey {
    SortKey { pinned: k.pinned, modified: k.modified, lower_title: k.lower_title@, kind: k.kind@ }
}

/// The debug name of a note kind.
fn kind_name_exec(t: NoteType) -> (r: Vec<char>)
    ensures
        r@ == kind_name(t),
{
    let r = match t {
        NoteType::Text => vec!['T', 'e', 'x', 't'],
        NoteType::Password => vec!['P', 'a', 's', 's', 'w', 'o', 'r', 'd'],
        NoteType::Canvas => vec!['C', 'a', 'n', 'v', 'a', 's'],
        NoteType::File => vec!['F', 'i', 'l', 'e'],
    };
    r
}

/// The sort key of a preview, computed.
fn key_of(n: &NotePreview) -> (k: ExecKey)
    ensures
        key_view(k) == sort_key(*n),
{
    let lower = to_lowercase(n.title.as_str());
    ExecKey {
        pinned: n.is_pinned,
        modified: n.modified_at,
        lower_title: chars_of(lower.as_str()),
        kind: kind_name_exec(n.note_type),
    }
}

/// Three-way comparison of integers.
fn int_order_exec(a: i64, b: i64) -> (r: i8)
    ensures
        r == int_order(a as int, b as int),
{
    if a < b {
        -1
    } else if a > b {
        1
    } else {
        0
    }
}

/// Lexicographic three-way comparison of texts.
pub(crate) fn lex_order_exec(a: &[char], b: &[char]) -> (r: i8)
    ensures
        r == lex_order(a@, b@),
{
    let mut i: usize = 0;
    assert(a@.skip(0) == a@ && b@.skip(0) == b@);
    while i < a.len() && i < b.len() && (a[i] as u32) == (b[i] as u32)
        invariant
            i <= a.len(),
            i <= b.len(),
            lex_order(a@, b@) == lex_order(a@.skip(i as int), b@.skip(i as int)),
        decreases a.len() - i,
    {
        assert(a@.skip(i as int).drop_first() == a@.skip(i + 1));
        assert(b@.skip(i as int).drop_first() == b@.skip(i + 1));
        i = i + 1;
    }
    if i == a.len() && i == b.len() {
        0
    } else if i == a.len() {
        -1
    } else if i == b.len() {
        1
    } else if (a[i] as u32) < (b[i] as u32) {
        -1
    } else {
        1
    }
}

/// The list order of two keys, computed.
fn key_order_exec(mode: SortMode, a: &ExecKey, b: &ExecKey) -> (r: i8)
    ensures
        r == key_order(mode, key_view(*a), key_view(*b)),
{
    if a.pinned != b.pinned {
        if a.pinned {
            -1
        } else {
            1
        }
    } else {
        match mode {
            SortMode::Modified => int_order_exec(b.modified, a.modified),
            SortMode::Created => int_order_exec(a.modified, b.modified),
            SortMode::NameAZ => lex_order_exec(&a.lower_title, &b.lower_title),
            SortMode::NameZA => lex_order_exec(&b.lower_title, &a.lower_title),
            SortMode::Type => {
                let c = lex_order_exec(&a.kind, &b.kind);
                if c != 0 {
                    c
                } else {
                    lex_order_exec(&a.lower_title, &b.lower_title)
                }
            },
        }
    }
}

/// Sorts note previews for the list: pinned first, then by the sort mode
/// (see `key_order`), keeping notes that compare equal in their old order.
pub fn sort_previews(notes: &mut Vec<NotePreview>, mode: SortMode)
    ensures
        sorted_by(mode, final(notes)@),
        exists|perm: Seq<int>| stable_rearrangement(mode, old(notes)@, final(notes)@, perm),
{
    let ghost src = notes@;
    let mut input: Vec<NotePreview> = Vec::new();
    std::mem::swap(notes, &mut input);
    let n = input.len();
    let mut out: Vec<NotePreview> = Vec::new();
    let mut keys: Vec<ExecKey> = Vec::new();
    let ghost mut perm: Seq<int> = Seq::empty();
    let mut i: usize = 0;
    while i < n
        invariant
            n == src.len(),
            i <= n,
            input@ == src.skip(i as int),
            out.len() == i,
            keys.len() == i,
            perm.len() == i,
            forall|k: int| 0 <= k < i ==> key_view(#[trigger] keys@[k]) == sort_key(out@[k]),
            forall|k: int| 0 <= k < i ==> 0 <= #[trigger] perm[k] < i,
            forall|k: int| 0 <= k < i ==> #[trigger] out@[k] == src[perm[k]],
            forall|a: int, b: int| 0 <= a < b < i ==> #[trigger] perm[a] != #[trigger] perm[b],
            sorted_by(mode, out@),
            forall|a: int, b: int|
                0 <= a < b < i && key_order(mode, sort_key(#[trigger] out@[a]), sort_key(
                    #[trigger] out@[b],
                )) == 0 ==> perm[a] < perm[b],
        decreases n - i,
    {
        assert(input@[0] == src[i as int]);
        let x = input.remove(0);
        assert(input@ == src.skip(i + 1));
        let kx = key_of(&x);
        let mut j = out.len();
        while j > 0 && key_order_exec(mode, &keys[j - 1], &kx) == 1
            invariant
                j <= out.len(),
                out.len() == keys.len(),
                forall|k: int| 0 <= k < out.len() ==> key_view(#[trigger] keys@[k]) == sort_key(out@[k]),
                forall|k: int| j <= k < out.len() ==> key_order(mode, sort_key(#[trigger] out@[k]), key_view(kx)) == 1,
            decreases j,
        {
            j = j - 1;
        }
        proof {
            let ox = sort_key(x);
            assert(key_view(kx) == ox);
            let old_out = out@;
            let new_out = old_out.insert(j as int, x);
            let new_perm = perm.insert(j as int, i as int);
            assert forall|a: int, b: int| 0 <= a < b < i + 1 implies key_order(
                mode,
                sort_key(#[trigger] new_out[a]),
                sort_key(#[trigger] new_out[b]),
            ) <= 0 && (key_order(mode, sort_key(new_out[a]), sort_key(new_out[b])) == 0
                ==> new_perm[a] < new_perm[b]) by {
                if b < j {
                    assert(new_out[a] == old_out[a] && new_out[b] == old_out[b]);
                    assert(new_perm[a] == perm[a] && new_perm[b] == perm[b]);
                } else if b == j {
                    assert(new_out[b] == x);
                    assert(new_out[a] == old_out[a]);
                    assert(new_perm[b] == i);
                    assert(new_perm[a] == perm[a]);
                    assert(key_order(mode, sort_key(old_out[j - 1]), ox) != 1);
                    lemma_key_order_le(mode, sort_key(old_out[j - 1]), ox);
                    if a < j - 1 {
                        lemma_key_order_trans(mode, sort_key(old_out[a]), sort_key(old_out[j - 1]), ox);
                    }
                } else if a == j {
                    assert(new_out[a] == x);
                    assert(new_out[b] == old_out[b - 1]);
                    lemma_key_order_flip(mode, sort_key(old_out[b - 1]), ox);
                } else if a < j {
                    assert(new_out[a] == old_out[a]);
                    assert(new_out[b] == old_out[b - 1]);
                    assert(new_perm[a] == perm[a] && new_perm[b] == perm[b - 1]);
                } else {
                    assert(new_out[a] == old_out[a - 1]);
                    assert(new_out[b] == old_out[b - 1]);
                    assert(new_perm[a] == perm[a - 1] && new_perm[b] == perm[b - 1]);
                }
            }
            assert forall|a: int, b: int| 0 <= a < b < i + 1 implies #[trigger] new_perm[a]
                != #[trigger] new_perm[b] by {
                if a < j && b < j {
                } else if a < j && b == j {
                } else if a < j {
                    assert(new_perm[b] == perm[b - 1]);
                } else if a == j {
                    assert(new_perm[b] == perm[b - 1]);
                } else {
                    assert(new_perm[a] == perm[a - 1] && new_perm[b] == perm[b - 1]);
                }
            }
            perm = new_perm;
        }
        out.insert(j, x);
        keys.insert(j, kx);
        proof {
            assert forall|k: int| 0 <= k < i + 1 implies 0 <= #[trigger] perm[k] < i + 1 by {
                if k < j {
                } else if k > j {
                }
            }
            assert forall|k: int| 0 <= k < i + 1 implies #[trigger] out@[k] == src[perm[k]] by {
                if k < j {
                } else if k > j {
                }
            }
            assert forall|k: int| 0 <= k < i + 1 implies key_view(#[trigger] keys@[k]) == sort_key(out@[k]) by {
                if k < j {
                } else if k > j {
                }
            }
        }
        i = i + 1;
    }
    proof {
        assert(stable_rearrangement(mode, src, out@, perm));
    }
    *notes = out;
}

/// A comparison that is not "after" flips to one that is not "before".
proof fn lemma_key_order_le(mode: SortMode, a: SortKey, b: SortKey)
    requires
        key_order(mode, a, b) != 1,
    ensures
        key_order(mode, a, b) <= 0,
{
    lemma_key_order_flip(mode, a, b);
    lemma_lex_order_range(a.lower_title, b.lower_title);
    lemma_lex_order_range(b.lower_title, a.lower_title);
    lemma_lex_order_range(a.kind, b.kind);
}

/// The comparison is -1, 0 or 1.
pub proof fn lemma_lex_order_range(a: Seq<char>, b: Seq<char>)
    ensures
        -1 <= lex_order(a, b) <= 1,
    decreases a.len(),
{
    if a.len() > 0 && b.len() > 0 && (a[0] as u32) == (b[0] as u32) {
        lemma_lex_order_range(a.drop_first(), b.drop_first());
    }
}

} // verus!

verus! {

/// A list sorted from `old` under the sort mode, as `sort_previews` leaves it.
pub open spec fn sorted_from(mode: SortMode, old: Seq<NotePreview>, new: Seq<NotePreview>) -> bool {
    sorted_by(mode, new) && exists|perm: Seq<int>| stable_rearrangement(mode, old, new, perm)
}

/// Sorts the main list and the note list of every subfolder by the sort
/// mode; the subfolders keep their ids and order.
pub fn apply_sort(notes: &mut Vec<NotePreview>, subfolder_notes: &mut Vec<(u128, Vec<NotePreview>)>, mode: SortMode)
    ensures
        sorted_from(mode, old(notes)@, final(notes)@),
        final(subfolder_notes).len() == old(subfolder_notes).len(),
        forall|k: int|
            0 <= k < old(subfolder_notes).len() ==> (#[trigger] final(subfolder_notes)@[k]).0
                == old(subfolder_notes)@[k].0 && sorted_from(
                mode,
                old(subfolder_notes)@[k].1@,
                final(subfolder_notes)@[k].1@,
            ),
{
    sort_previews(notes, mode);
    let ghost before = subfolder_notes@;
    let mut k: usize = 0;
    while k < subfolder_notes.len()
        invariant
            k <= subfolder_notes.len(),
            subfolder_notes.len() == before.len(),
            forall|j: int|
                0 <= j < before.len() ==> (#[trigger] subfolder_notes@[j]).0 == before[j].0 && (if j
                    < k {
                    sorted_from(mode, before[j].1@, subfolder_notes@[j].1@)
                } else {
                    subfolder_notes@[j].1 == before[j].1
                }),
        decreases before.len() - k,
    {
        let (id, mut list) = subfolder_notes.remove(k);
        sort_previews(&mut list, mode);
        subfolder_notes.insert(k, (id, list));
        k = k + 1;
    }
}

} // verus!

verus! {

/// The first preview with the id.
pub open spec fn first_preview(notes: Seq<NotePreview>, id: u128) -> Option<int>
    decreases notes.len(),
{
    if notes.len() == 0 {
        None
    } else {
        match first_preview(notes.drop_last(), id) {
            Some(k) => Some(k),
            None => if notes.last().id == id {
                Some(notes.len() - 1)
            } else {
                None
            },
        }
    }
}

/// The first preview with the id, computed.
pub fn first_preview_exec(notes: &Vec<NotePreview>, id: u128) -> (r: Option<usize>)
    ensures
        match r {
            Some(k) => first_preview(notes@, id) == Some(k as int) && k < notes.len(),
            None => first_preview(notes@, id) is None,
        },
{
    let mut k: usize = 0;
    while k < notes.len()
        invariant
            k <= notes.len(),
            first_preview(notes@.take(k as int), id) is None,
        decreases notes.len() - k,
    {
        assert(notes@.take(k + 1).drop_last() == notes@.take(k as int));
        if notes[k].id == id {
            proof {
                lemma_first_preview_prefix(notes@, k + 1, id);
            }
            return Some(k);
        }
        k = k + 1;
    }
    assert(notes@.take(notes.len() as int) == notes@);
    None
}

/// A first match in a prefix is the first match in the whole.
pub proof fn lemma_first_preview_prefix(v: Seq<NotePreview>, n: int, id: u128)
    requires
        0 <= n <= v.len(),
        first_preview(v.take(n), id) is Some,
    ensures
        first_preview(v, id) == first_preview(v.take(n), id),
    decreases v.len() - n,
{
    if n < v.len() {
        assert(v.take(n + 1).drop_last() == v.take(n));
        lemma_first_preview_prefix(v, n + 1, id);
    } else {
        assert(v.take(n) == v);
    }
}

/// `new` is `old` with the first preview of note `id` given `snippet` and
/// the change time `now`; everything else as it was.
pub open spec fn refreshed(old: Seq<NotePreview>, new: Seq<NotePreview>, id: u128, snippet: Seq<char>, now: i64) -> bool {
    &&& new.len() == old.len()
    &&& forall|k: int|
        0 <= k < old.len() ==> {
            &&& (#[trigger] new[k]).id == old[k].id
            &&& new[k].title == old[k].title
            &&& new[k].is_pinned == old[k].is_pinned
            &&& new[k].note_type == old[k].note_type
            &&& if first_preview(old, id) == Some(k) {
                new[k].snippet@ == snippet && new[k].modified_at == now
            } else {
                new[k].snippet == old[k].snippet && new[k].modified_at == old[k].modified_at
            }
        }
}

/// Gives the first preview of note `id` in one list the new snippet and
/// change time.
fn refresh_list(list: &mut Vec<NotePreview>, id: u128, snippet: &str, now: i64)
    ensures
        refreshed(old(list)@, final(list)@, id, snippet@, now),
{
    let ghost before = list@;
    match first_preview_exec(list, id) {
        Some(k) => {
            let mut p = list.remove(k);
            p.snippet = snippet.to_owned();
            p.modified_at = now;
            list.insert(k, p);
            assert forall|j: int| 0 <= j < before.len() && j != k implies #[trigger] list@[j] == before[j] by {
                if j < k {
                } else {
                }
            }
        },
        None => {},
    }
}

/// After an edit of note `id`: its preview, in the main list and in every
/// subfolder's list, shows the new snippet and change time (the lists are
/// then sorted again).
pub fn refresh_preview(
    notes: &mut Vec<NotePreview>,
    subfolder_notes: &mut Vec<(u128, Vec<NotePreview>)>,
    id: u128,
    snippet: &str,
    now: i64,
)
    ensures
        refreshed(old(notes)@, final(notes)@, id, snippet@, now),
        final(subfolder_notes).len() == old(subfolder_notes).len(),
        forall|k: int|
            0 <= k < old(subfolder_notes).len() ==> (#[trigger] final(subfolder_notes)@[k]).0
                == old(subfolder_notes)@[k].0 && refreshed(
                old(subfolder_notes)@[k].1@,
                final(subfolder_notes)@[k].1@,
                id,
                snippet@,
                now,
            ),
{
    refresh_list(notes, id, snippet, now);
    let ghost before = subfolder_notes@;
    let mut k: usize = 0;
    while k < subfolder_notes.len()
        invariant
            k <= subfolder_notes.len(),
            subfolder_notes.len() == before.len(),
            forall|j: int|
                0 <= j < before.len() ==> (#[trigger] subfolder_notes@[j]).0 == before[j].0 && (if j
                    < k {
                    refreshed(before[j].1@, subfolder_notes@[j].1@, id, snippet@, now)
                } else {
                    subfolder_notes@[j].1 == before[j].1
                }),
        decreases before.len() - k,
    {
        let (fid, mut list) = subfolder_notes.remove(k);
        refresh_list(&mut list, id, snippet, now);
        subfolder_notes.insert(k, (fid, list));
        k = k + 1;
    }
}

/// The title a rename sets: the typed text, or (when nothing was typed)
/// the note's title in the list, else the open note's title if it is this
/// note, else nothing.
pub open spec fn submitted_title(
    notes: Seq<NotePreview>,
    id: u128,
    typed: Seq<char>,
    open: Option<(u128, Seq<char>)>,
) -> Seq<char> {
    if typed.len() > 0 {
        typed
    } else {
        match first_preview(notes, id) {
            Some(k) => notes[k].title@,
            None => match open {
                Some(o) => if o.0 == id {
                    o.1
                } else {
                    Seq::empty()
                },
                None => Seq::empty(),
            },
        }
    }
}

/// `new` is `old` with the title of previews of note `id` set: only the
/// first one where `first_only`, else all of them.
pub open spec fn retitled(old: Seq<NotePreview>, new: Seq<NotePreview>, id: u128, title: Seq<char>, first_only: bool) -> bool {
    &&& new.len() == old.len()
    &&& forall|k: int|
        0 <= k < old.len() ==> {
            &&& (#[trigger] new[k]).id == old[k].id
            &&& new[k].snippet == old[k].snippet
            &&& new[k].is_pinned == old[k].is_pinned
            &&& new[k].modified_at == old[k].modified_at
            &&& new[k].note_type == old[k].note_type
            &&& if (first_only && first_preview(old, id) == Some(k)) || (!first_only && old[k].id == id) {
                new[k].title@ == title
            } else {
                new[k].title == old[k].title
            }
        }
}

/// Sets the title of previews of note `id` in one list.
fn retitle_list(list: &mut Vec<NotePreview>, id: u128, title: &str, first_only: bool)
    ensures
        retitled(old(list)@, final(list)@, id, title@, first_only),
{
    let ghost before = list@;
    if first_only {
        match first_preview_exec(list, id) {
            Some(k) => {
                let mut p = list.remove(k);
                p.title = title.to_owned();
                list.insert(k, p);
                assert forall|j: int| 0 <= j < before.len() && j != k implies #[trigger] list@[j] == before[j] by {
                    if j < k {
                    } else {
                    }
                }
            },
            None => {},
        }
    } else {
        let mut k: usize = 0;
        while k < list.len()
            invariant
                k <= list.len(),
                list.len() == before.len(),
                !first_only,
                forall|j: int|
                    0 <= j < before.len() ==> {
                        &&& (#[trigger] list@[j]).id == before[j].id
                        &&& list@[j].snippet == before[j].snippet
                        &&& list@[j].is_pinned == before[j].is_pinned
                        &&& list@[j].modified_at == before[j].modified_at
                        &&& list@[j].note_type == before[j].note_type
                        &&& if j < k && before[j].id == id {
                            list@[j].title@ == title@
                        } else {
                            list@[j].title == before[j].title
                        }
                    },
            decreases before.len() - k,
        {
            if list[k].id == id {
                let ghost prev = list@;
                let mut p = list.remove(k);
                p.title = title.to_owned();
                list.insert(k, p);
                assert forall|j: int| 0 <= j < before.len() && j != k implies #[trigger] list@[j] == prev[j] by {
                    if j < k {
                    } else {
                    }
                }
            }
            k = k + 1;
        }
    }
}

/// Finishes renaming note `id`: works out the title (see
/// `submitted_title`), sets it on the note's first preview in the main
/// list and on all its previews in the subfolders' lists, and returns it
/// (for the open note, the editor and the store).
pub fn submit_note_rename(
    notes: &mut Vec<NotePreview>,
    subfolder_notes: &mut Vec<(u128, Vec<NotePreview>)>,
    id: u128,
    typed: &str,
    open: Option<(u128, &str)>,
) -> (r: String)
    ensures
        r@ == submitted_title(old(notes)@, id, typed@, match open {
            Some(o) => Some((o.0, o.1@)),
            None => None,
        }),
        retitled(old(notes)@, final(notes)@, id, r@, true),
        final(subfolder_notes).len() == old(subfolder_notes).len(),
        forall|k: int|
            0 <= k < old(subfolder_notes).len() ==> (#[trigger] final(subfolder_notes)@[k]).0
                == old(subfolder_notes)@[k].0 && retitled(
                old(subfolder_notes)@[k].1@,
                final(subfolder_notes)@[k].1@,
                id,
                r@,
                false,
            ),
{
    let title: String = if !typed.is_empty() {
        typed.to_owned()
    } else {
        match first_preview_exec(notes, id) {
            Some(k) => notes[k].title.clone(),
            None => match open {
                Some((oid, t)) => if oid == id {
                    t.to_owned()
                } else {
                    String::new()
                },
                None => String::new(),
            },
        }
    };
    retitle_list(notes, id, title.as_str(), true);
    let ghost before = subfolder_notes@;
    let mut k: usize = 0;
    while k < subfolder_notes.len()
        invariant
            k <= subfolder_notes.len(),
            subfolder_notes.len() == before.len(),
            forall|j: int|
                0 <= j < before.len() ==> (#[trigger] subfolder_notes@[j]).0 == before[j].0 && (if j
                    < k {
                    retitled(before[j].1@, subfolder_notes@[j].1@, id, title@, false)
                } else {
                    subfolder_notes@[j].1 == before[j].1
                }),
        decreases before.len() - k,
    {
        let (fid, mut list) = subfolder_notes.remove(k);
        retitle_list(&mut list, id, title.as_str(), false);
        subfolder_notes.insert(k, (fid, list));
        k = k + 1;
    }
    title
}

/// Where the body of a note being saved comes from.
#[derive(Debug, Clone, Copy, PartialEq, Eq, Structural)]
pub enum BodySource {
    /// The fields of a password note.
    PasswordFields,
    /// The nodes and edges of a canvas.
    Canvas,
    /// The lines of the text editor (text and file notes).
    Lines,
}

/// What saving the open note does.
#[derive(Debug, Clone, Copy, PartialEq, Eq, Structural)]
pub enum SaveAction {
    /// No note is open.
    Nothing,
    /// Encrypted and unlocked this session: encrypt the body again with the
    /// session's password and store it.
    Reencrypt(BodySource),
    /// Encrypted and still locked: nothing to store; the note counts as saved.
    MarkSaved,
    /// A plain note: store its body.
    Store(BodySource),
}

/// Where the body of a note of this kind comes from.
pub open spec fn body_source_of(t: NoteType) -> BodySource {
    match t {
        NoteType::Password => BodySource::PasswordFields,
        NoteType::Canvas => BodySource::Canvas,
        _ => BodySource::Lines,
    }
}

/// What saving the open note does: the open note's kind, whether it is
/// encrypted and whether its password is known this session.
pub fn save_action(open: Option<(NoteType, bool, bool)>) -> (r: SaveAction)
    ensures
        r == match open {
            None => SaveAction::Nothing,
            Some((t, encrypted, unlocked)) => if encrypted && unlocked {
                SaveAction::Reencrypt(body_source_of(t))
            } else if encrypted {
                SaveAction::MarkSaved
            } else {
                SaveAction::Store(body_source_of(t))
            },
        },
{
    match open {
        None => SaveAction::Nothing,
        Some((t, encrypted, unlocked)) => {
            let src = match t {
                NoteType::Password => BodySource::PasswordFields,
                NoteType::Canvas => BodySource::Canvas,
                _ => BodySource::Lines,
            };
            if encrypted && unlocked {
                SaveAction::Reencrypt(src)
            } else if encrypted {
                SaveAction::MarkSaved
            } else {
                SaveAction::Store(src)
            }
        },
    }
}

} // verus!
