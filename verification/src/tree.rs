//! The folder tree as the notes list shows it, and selecting notes in it
//! with Ctrl (toggle) and Shift (range).
use vstd::prelude::*;
use std::collections::HashSet;
use crate::notes::NotePreview;
use crate::types::ActiveView;

verus! {

broadcast use vstd::std_specs::hash::group_hash_axioms;

/// What the tree reads of a folder: its id, its parent's id, and whether
/// it is a favorite.
#[derive(Debug, Clone, Copy, PartialEq, Eq, Structural)]
pub struct FolderNode {
    pub id: u128,
    pub parent_id: Option<u128>,
    pub is_favorite: bool,
}

/// The folders whose parent is `parent`, in list order.
pub open spec fn children(folders: Seq<FolderNode>, parent: Option<u128>) -> Seq<FolderNode> {
    folders.filter(|f: FolderNode| f.parent_id == parent)
}

/// The note ids listed under folder `id`: those of the first entry for it,
/// or none.
pub open spec fn notes_of(sub_notes: Seq<(u128, Seq<u128>)>, id: u128) -> Seq<u128>
    decreases sub_notes.len(),
{
    if sub_notes.len() == 0 {
        Seq::empty()
    } else if sub_notes[0].0 == id {
        sub_notes[0].1
    } else {
        notes_of(sub_notes.drop_first(), id)
    }
}

/// Items for a list of note ids (`false`: not a folder).
pub open spec fn note_items(ids: Seq<u128>) -> Seq<(u128, bool)> {
    ids.map_values(|n: u128| (n, false))
}

/// The rows under `parent` in the tree view, depth first: each child
/// folder, then (if expanded) its notes and its own subtree. `None` where
/// `fuel` levels are not enough (only when expanded folders form a cycle).
pub open spec fn visible_under(folders: Seq<FolderNode>, expanded: Set<u128>, sub_notes: Seq<(u128, Seq<u128>)>, parent: Option<u128>, fuel: nat) -> Option<Seq<(u128, bool)>>
    decreases fuel, 0nat,
{
    if fuel == 0 {
        None
    } else {
        visible_list(folders, expanded, sub_notes, children(folders, parent), (fuel - 1) as nat)
    }
}

/// The rows for a list of sibling folders.
pub open spec fn visible_list(folders: Seq<FolderNode>, expanded: Set<u128>, sub_notes: Seq<(u128, Seq<u128>)>, kids: Seq<FolderNode>, fuel: nat) -> Option<Seq<(u128, bool)>>
    decreases fuel, kids.len() + 1,
{
    if kids.len() == 0 {
        Some(Seq::empty())
    } else {
        let f = kids[0];
        let inner = if expanded.contains(f.id) {
            match visible_under(folders, expanded, sub_notes, Some(f.id), fuel) {
                Some(t) => Some(note_items(notes_of(sub_notes, f.id)) + t),
                None => None,
            }
        } else {
            Some(Seq::empty())
        };
        match (inner, visible_list(folders, expanded, sub_notes, kids.drop_first(), fuel)) {
            (Some(a), Some(b)) => Some(seq![(f.id, true)] + a + b),
            _ => None,
        }
    }
}

/// The rows of the notes list in display order: the subfolder tree under
/// the active folder, then the notes of the view itself.
pub open spec fn visible_items(folders: Seq<FolderNode>, expanded: Set<u128>, sub_notes: Seq<(u128, Seq<u128>)>, active: Option<u128>, notes: Seq<u128>) -> Option<Seq<(u128, bool)>> {
    match visible_under(folders, expanded, sub_notes, active, (folders.len() + 1) as nat) {
        Some(t) => Some(t + note_items(notes)),
        None => None,
    }
}

} // verus!

verus! {

/// The note ids of each subfolder entry.
pub open spec fn sub_note_ids(sub: Seq<(u128, Vec<NotePreview>)>) -> Seq<(u128, Seq<u128>)> {
    sub.map_values(|e: (u128, Vec<NotePreview>)| (e.0, preview_ids(e.1@)))
}

/// The ids of a list of previews.
pub open spec fn preview_ids(v: Seq<NotePreview>) -> Seq<u128> {
    v.map_values(|n: NotePreview| n.id)
}

/// The rows of two sibling lists are the rows of the first then the second.
proof fn lemma_visible_list_concat(folders: Seq<FolderNode>, expanded: Set<u128>, sub_notes: Seq<(u128, Seq<u128>)>, a: Seq<FolderNode>, b: Seq<FolderNode>, fuel: nat)
    ensures
        visible_list(folders, expanded, sub_notes, a + b, fuel) == match (
            visible_list(folders, expanded, sub_notes, a, fuel),
            visible_list(folders, expanded, sub_notes, b, fuel),
        ) {
            (Some(x), Some(y)) => Some(x + y),
            _ => None,
        },
    decreases a.len(),
{
    if a.len() == 0 {
        assert(a + b == b);
    } else {
        assert((a + b)[0] == a[0]);
        assert((a + b).drop_first() == a.drop_first() + b);
        lemma_visible_list_concat(folders, expanded, sub_notes, a.drop_first(), b, fuel);
        let f = a[0];
        let inner = if expanded.contains(f.id) {
            match visible_under(folders, expanded, sub_notes, Some(f.id), fuel) {
                Some(t) => Some(note_items(notes_of(sub_notes, f.id)) + t),
                None => None,
            }
        } else {
            Some(Seq::<(u128, bool)>::empty())
        };
        if let (Some(i), Some(x), Some(y)) = (
            inner,
            visible_list(folders, expanded, sub_notes, a.drop_first(), fuel),
            visible_list(folders, expanded, sub_notes, b, fuel),
        ) {
            assert(seq![(f.id, true)] + i + (x + y) == (seq![(f.id, true)] + i + x) + y);
        }
    }
}

/// The note ids under folder `id`.
fn notes_of_exec(sub_notes: &Vec<(u128, Vec<NotePreview>)>, id: u128) -> (r: Vec<(u128, bool)>)
    ensures
        r@ == note_items(notes_of(sub_note_ids(sub_notes@), id)),
{
    let ghost sv = sub_note_ids(sub_notes@);
    let mut k: usize = 0;
    assert(sv.skip(0) == sv);
    while k < sub_notes.len()
        invariant
            k <= sub_notes.len(),
            sv == sub_note_ids(sub_notes@),
            notes_of(sv, id) == notes_of(sv.skip(k as int), id),
        decreases sub_notes.len() - k,
    {
        assert(sv.skip(k as int)[0] == sv[k as int]);
        assert(sv.skip(k as int).drop_first() == sv.skip(k + 1));
        if sub_notes[k].0 == id {
            let list = &sub_notes[k].1;
            let mut r: Vec<(u128, bool)> = Vec::new();
            let mut j: usize = 0;
            while j < list.len()
                invariant
                    j <= list.len(),
                    r@ == note_items(preview_ids(list@)).take(j as int),
                decreases list.len() - j,
            {
                r.push((list[j].id, false));
                j = j + 1;
                assert(note_items(preview_ids(list@)).take(j as int) == note_items(preview_ids(list@)).take(j - 1).push((list@[j - 1].id, false)));
            }
            assert(note_items(preview_ids(list@)).take(list.len() as int) == note_items(preview_ids(list@)));
            return r;
        }
        k = k + 1;
    }
    Vec::new()
}

/// Appends the rows under `parent`; `false` where `fuel` levels are not
/// enough.
fn collect_visible(
    folders: &Vec<FolderNode>,
    expanded: &HashSet<u128>,
    sub_notes: &Vec<(u128, Vec<NotePreview>)>,
    items: &mut Vec<(u128, bool)>,
    parent: Option<u128>,
    fuel: usize,
) -> (ok: bool)
    ensures
        ok == visible_under(folders@, expanded@, sub_note_ids(sub_notes@), parent, fuel as nat) is Some,
        ok ==> final(items)@ == old(items)@ + visible_under(folders@, expanded@, sub_note_ids(sub_notes@), parent, fuel as nat)->0,
    decreases fuel,
{
    let ghost fs = folders@;
    let ghost ex = expanded@;
    let ghost sv = sub_note_ids(sub_notes@);
    if fuel == 0 {
        return false;
    }
    let g = fuel - 1;
    let ghost start_items = items@;
    let mut k: usize = 0;
    let mut ok = true;
    while k < folders.len()
        invariant
            fs == folders@,
            ex == expanded@,
            sv == sub_note_ids(sub_notes@),
            g == fuel - 1,
            fuel > 0,
            k <= folders.len(),
            ok,
            visible_list(fs, ex, sv, children(fs.take(k as int), parent), g as nat) matches Some(acc)
                && items@ == start_items + acc,
        decreases folders.len() - k,
    {
        let f = folders[k];
        proof {
            reveal_with_fuel(Seq::<_>::filter, 1);
            assert(fs.take(k + 1).drop_last() == fs.take(k as int));
            assert(fs.take(k + 1).last() == f);
        }
        let ghost before = children(fs.take(k as int), parent);
        if f.parent_id == parent {
            assert(children(fs.take(k + 1), parent) == before.push(f));
            assert(before.push(f) == before + seq![f]);
            let ghost acc = visible_list(fs, ex, sv, before, g as nat)->0;
            items.push((f.id, true));
            let mut sub_ok = true;
            let ghost mut inner: Option<Seq<(u128, bool)>> = Some(Seq::empty());
            if expanded.contains(&f.id) {
                let ns = notes_of_exec(sub_notes, f.id);
                let mut j: usize = 0;
                let ghost base = items@;
                while j < ns.len()
                    invariant
                        j <= ns.len(),
                        items@ == base + ns@.take(j as int),
                    decreases ns.len() - j,
                {
                    items.push(ns[j]);
                    j = j + 1;
                    assert(ns@.take(j as int) == ns@.take(j - 1).push(ns@[j - 1]));
                }
                assert(ns@.take(ns.len() as int) == ns@);
                let ghost mid = items@;
                sub_ok = collect_visible(folders, expanded, sub_notes, items, Some(f.id), g);
                proof {
                    inner = match visible_under(fs, ex, sv, Some(f.id), g as nat) {
                        Some(t) => Some(note_items(notes_of(sv, f.id)) + t),
                        None => None,
                    };
                    if sub_ok {
                        let t = visible_under(fs, ex, sv, Some(f.id), g as nat)->0;
                        assert(items@ == start_items + acc + seq![(f.id, true)] + (note_items(
                            notes_of(sv, f.id),
                        ) + t));
                    }
                }
            } else {
                assert(items@ == start_items + acc + seq![(f.id, true)] + Seq::<(u128, bool)>::empty());
            }
            proof {
                lemma_visible_list_concat(fs, ex, sv, before, seq![f], g as nat);
                assert(seq![f].drop_first() == Seq::<FolderNode>::empty());
                assert(seq![f][0] == f);
                assert(visible_list(fs, ex, sv, seq![f].drop_first(), g as nat) == Some(
                    Seq::<(u128, bool)>::empty(),
                ));
                if let Some(iv) = inner {
                    assert(visible_list(fs, ex, sv, seq![f], g as nat) == Some(
                        seq![(f.id, true)] + iv + Seq::<(u128, bool)>::empty(),
                    ));
                    assert(seq![(f.id, true)] + iv + Seq::<(u128, bool)>::empty() == seq![(f.id, true)] + iv);
                    assert(start_items + (acc + (seq![(f.id, true)] + iv)) == start_items + acc + seq![(f.id, true)] + iv);
                } else {
                    assert(visible_list(fs, ex, sv, seq![f], g as nat) is None);
                }
            }
            if !sub_ok {
                assert(visible_list(fs, ex, sv, children(fs.take(k + 1), parent), g as nat) is None);
                proof {
                    lemma_visible_list_concat(fs, ex, sv, children(fs.take(k + 1), parent), children(fs.skip(k + 1), parent), g as nat);
                    assert(fs.take(k + 1) + fs.skip(k + 1) == fs);
                    Seq::filter_distributes_over_add(fs.take(k + 1), fs.skip(k + 1), |x: FolderNode| x.parent_id == parent);
                    assert(children(fs, parent) == children(fs.take(k + 1), parent) + children(fs.skip(k + 1), parent));
                }
                return false;
            }
        } else {
            assert(children(fs.take(k + 1), parent) == before);
        }
        k = k + 1;
    }
    assert(fs.take(folders.len() as int) == fs);
    true
}

} // verus!

verus! {

/// The folder whose subtree the view shows (`None` outside a folder).
pub open spec fn active_parent(view: ActiveView) -> Option<u128> {
    match view {
        ActiveView::Folder(id) => Some(id),
        _ => None,
    }
}

/// The rows of the notes list in display order, as `(id, is_folder)`: the
/// subfolders under the active folder depth first, each expanded one
/// followed by its notes and its own subfolders, then the view's notes.
/// The expanded folders must not form a cycle (the walk would not end).
pub fn visible_item_ids(
    folders: &Vec<FolderNode>,
    expanded: &HashSet<u128>,
    sub_notes: &Vec<(u128, Vec<NotePreview>)>,
    view: &ActiveView,
    notes: &Vec<NotePreview>,
) -> (r: Vec<(u128, bool)>)
    requires
        folders.len() < usize::MAX,
        visible_items(folders@, expanded@, sub_note_ids(sub_notes@), active_parent(*view), preview_ids(notes@)) is Some,
    ensures
        visible_items(folders@, expanded@, sub_note_ids(sub_notes@), active_parent(*view), preview_ids(notes@)) == Some(r@),
{
    let parent = match view {
        ActiveView::Folder(id) => Some(*id),
        _ => None,
    };
    let mut items: Vec<(u128, bool)> = Vec::new();
    let fuel = folders.len() + 1;
    let ok = collect_visible(folders, expanded, sub_notes, &mut items, parent, fuel);
    assert(ok);
    let ghost tree = items@;
    let mut j: usize = 0;
    while j < notes.len()
        invariant
            j <= notes.len(),
            items@ == tree + note_items(preview_ids(notes@)).take(j as int),
        decreases notes.len() - j,
    {
        items.push((notes[j].id, false));
        j = j + 1;
        assert(note_items(preview_ids(notes@)).take(j as int) == note_items(preview_ids(notes@)).take(j - 1).push((notes@[j - 1].id, false)));
    }
    assert(note_items(preview_ids(notes@)).take(notes.len() as int) == note_items(preview_ids(notes@)));
    items
}

} // verus!

verus! {

/// The notes and folders picked with Ctrl/Shift, and the note last clicked.
pub struct NoteSelection {
    pub multi_selected: HashSet<u128>,
    pub multi_selected_folders: HashSet<u128>,
    pub last_clicked_note: Option<u128>,
}

/// What a click on a note leads to.
#[derive(Debug, Clone, Copy, PartialEq, Eq, Structural)]
pub enum ClickAction {
    /// Alt-click: open the note in a new window; the selection is unchanged.
    OpenInNewWindow,
    /// Ctrl- or Shift-click: only the selection changed.
    SelectionChanged,
    /// Plain click: the multi-selection was cleared; open the note.
    OpenNote,
}

/// The first row holding `id`.
pub open spec fn first_row(visible: Seq<(u128, bool)>, id: u128) -> Option<int>
    decreases visible.len(),
{
    if visible.len() == 0 {
        None
    } else if visible.last().0 == id && first_row(visible.drop_last(), id) is None {
        Some(visible.len() - 1)
    } else {
        first_row(visible.drop_last(), id)
    }
}

/// The ids of the rows in `[lo, hi]` that are folders (or notes).
pub open spec fn rows_between(visible: Seq<(u128, bool)>, lo: int, hi: int, folders: bool) -> Set<u128> {
    Set::new(
        |x: u128| exists|k: int| lo <= k <= hi && 0 <= k < visible.len() && #[trigger] visible[k] == (x, folders),
    )
}

/// `s` with `x` added if absent and removed if present.
pub open spec fn toggled(s: Set<u128>, x: u128) -> Set<u128> {
    if s.contains(x) {
        s.remove(x)
    } else {
        s.insert(x)
    }
}

/// The position of `id` among the rows, computed.
fn first_row_exec(visible: &Vec<(u128, bool)>, id: u128) -> (r: Option<usize>)
    ensures
        match r {
            Some(k) => first_row(visible@, id) == Some(k as int),
            None => first_row(visible@, id) is None,
        },
{
    let mut k: usize = 0;
    while k < visible.len()
        invariant
            k <= visible.len(),
            first_row(visible@.take(k as int), id) is None,
        decreases visible.len() - k,
    {
        assert(visible@.take(k + 1).drop_last() == visible@.take(k as int));
        if visible[k].0 == id {
            proof {
                lemma_first_row_prefix(visible@, k + 1, id);
            }
            return Some(k);
        }
        k = k + 1;
    }
    assert(visible@.take(visible.len() as int) == visible@);
    None
}

/// A first occurrence in a prefix is the first occurrence in the whole.
proof fn lemma_first_row_prefix(v: Seq<(u128, bool)>, n: int, id: u128)
    requires
        0 <= n <= v.len(),
        first_row(v.take(n), id) is Some,
    ensures
        first_row(v, id) == first_row(v.take(n), id),
    decreases v.len() - n,
{
    if n < v.len() {
        assert(v.take(n + 1).drop_last() == v.take(n));
        lemma_first_row_prefix(v, n + 1, id);
    } else {
        assert(v.take(n) == v);
    }
}

/// The note and folder selections after a Shift-click on `id`: every row
/// between the last clicked item's row and `id`'s row (both ends included)
/// joins the selection of its kind, when both are listed; otherwise nothing
/// changes.
pub open spec fn range_selected(
    last: Option<u128>,
    id: u128,
    visible: Seq<(u128, bool)>,
    notes: Set<u128>,
    folders: Set<u128>,
) -> (Set<u128>, Set<u128>) {
    match (last, first_row(visible, id)) {
        (Some(l), Some(b)) if first_row(visible, l) is Some => {
            let a = first_row(visible, l)->0;
            let lo = if a < b {
                a
            } else {
                b
            };
            let hi = if a < b {
                b
            } else {
                a
            };
            (notes + rows_between(visible, lo, hi, false), folders + rows_between(visible, lo, hi, true))
        },
        _ => (notes, folders),
    }
}

/// Shift-click on `id`: selects the rows between the last clicked item and
/// `id`, notes and folders apart.
fn select_range(sel: &mut NoteSelection, id: u128, visible: &Vec<(u128, bool)>)
    ensures
        (final(sel).multi_selected@, final(sel).multi_selected_folders@) == range_selected(
            old(sel).last_clicked_note,
            id,
            visible@,
            old(sel).multi_selected@,
            old(sel).multi_selected_folders@,
        ),
        final(sel).last_clicked_note == old(sel).last_clicked_note,
{
    if let Some(last) = sel.last_clicked_note {
        let pos_a = first_row_exec(visible, last);
        let pos_b = first_row_exec(visible, id);
        if let (Some(a), Some(b)) = (pos_a, pos_b) {
            let (start, end) = if a < b { (a, b) } else { (b, a) };
            proof {
                lemma_first_row_bound(visible@, last);
                lemma_first_row_bound(visible@, id);
            }
            let ghost notes0 = sel.multi_selected@;
            let ghost folders0 = sel.multi_selected_folders@;
            let mut i = start;
            while i <= end
                invariant
                    start <= i <= end + 1,
                    end < visible.len(),
                    sel.multi_selected@ == notes0 + rows_between(visible@, start as int, i - 1, false),
                    sel.multi_selected_folders@ == folders0 + rows_between(visible@, start as int, i - 1, true),
                    sel.last_clicked_note == Some(last),
                decreases end + 1 - i,
            {
                let (item_id, is_folder) = visible[i];
                proof {
                    assert(visible@[i as int] == (item_id, is_folder));
                }
                if is_folder {
                    sel.multi_selected_folders.insert(item_id);
                } else {
                    sel.multi_selected.insert(item_id);
                }
                assert(rows_between(visible@, start as int, i as int, false) == rows_between(visible@, start as int, i - 1, false) + if !is_folder { set![item_id] } else { Set::empty() });
                assert(rows_between(visible@, start as int, i as int, true) == rows_between(visible@, start as int, i - 1, true) + if is_folder { set![item_id] } else { Set::empty() });
                i = i + 1;
            }
        }
    }
}

/// Handles a click on note `id`: Alt opens it in a new window; Ctrl toggles
/// it in the multi-selection; Shift adds every row between the last clicked
/// item and this one (notes and folders apart) when both are listed; a plain
/// click clears the multi-selection and opens the note. Ctrl, Shift and the
/// plain click remember the note as last clicked.
pub fn click_note(sel: &mut NoteSelection, id: u128, ctrl: bool, shift: bool, alt: bool, visible: &Vec<(u128, bool)>) -> (r: ClickAction)
    ensures
        alt ==> r == ClickAction::OpenInNewWindow && final(sel).multi_selected@ == old(sel).multi_selected@
            && final(sel).multi_selected_folders@ == old(sel).multi_selected_folders@
            && final(sel).last_clicked_note == old(sel).last_clicked_note,
        !alt ==> final(sel).last_clicked_note == Some(id),
        !alt && ctrl ==> r == ClickAction::SelectionChanged && final(sel).multi_selected@ == toggled(
            old(sel).multi_selected@,
            id,
        ) && final(sel).multi_selected_folders@ == old(sel).multi_selected_folders@,
        !alt && !ctrl && shift ==> r == ClickAction::SelectionChanged && (
        final(sel).multi_selected@,
        final(sel).multi_selected_folders@,
        ) == range_selected(
            old(sel).last_clicked_note,
            id,
            visible@,
            old(sel).multi_selected@,
            old(sel).multi_selected_folders@,
        ),
        !alt && !ctrl && !shift ==> r == ClickAction::OpenNote && final(sel).multi_selected@.is_empty()
            && final(sel).multi_selected_folders@.is_empty(),
{
    if alt {
        return ClickAction::OpenInNewWindow;
    }
    if ctrl {
        if sel.multi_selected.contains(&id) {
            sel.multi_selected.remove(&id);
        } else {
            sel.multi_selected.insert(id);
        }
        sel.last_clicked_note = Some(id);
        return ClickAction::SelectionChanged;
    } else if shift {
        select_range(sel, id, visible);
        sel.last_clicked_note = Some(id);
        return ClickAction::SelectionChanged;
    } else {
        sel.multi_selected.clear();
        sel.multi_selected_folders.clear();
        sel.last_clicked_note = Some(id);
    }
    ClickAction::OpenNote
}

/// Handles a click on folder `id`: Ctrl toggles it in the folder selection;
/// Shift adds every row between the last clicked item and this one (notes
/// and folders apart) when both are listed; a plain click clears both
/// selections and opens or closes the folder. Each remembers the folder as
/// last clicked.
pub fn click_folder(
    sel: &mut NoteSelection,
    expanded: &mut HashSet<u128>,
    id: u128,
    ctrl: bool,
    shift: bool,
    visible: &Vec<(u128, bool)>,
)
    ensures
        final(sel).last_clicked_note == Some(id),
        ctrl ==> final(sel).multi_selected_folders@ == toggled(old(sel).multi_selected_folders@, id)
            && final(sel).multi_selected@ == old(sel).multi_selected@ && final(expanded)@ == old(
            expanded,
        )@,
        !ctrl && shift ==> (final(sel).multi_selected@, final(sel).multi_selected_folders@)
            == range_selected(
            old(sel).last_clicked_note,
            id,
            visible@,
            old(sel).multi_selected@,
            old(sel).multi_selected_folders@,
        ) && final(expanded)@ == old(expanded)@,
        !ctrl && !shift ==> final(sel).multi_selected@.is_empty()
            && final(sel).multi_selected_folders@.is_empty() && final(expanded)@ == toggled(
            old(expanded)@,
            id,
        ),
{
    if ctrl {
        if sel.multi_selected_folders.contains(&id) {
            sel.multi_selected_folders.remove(&id);
        } else {
            sel.multi_selected_folders.insert(id);
        }
    } else if shift {
        select_range(sel, id, visible);
    } else {
        sel.multi_selected_folders.clear();
        sel.multi_selected.clear();
        if expanded.contains(&id) {
            expanded.remove(&id);
        } else {
            expanded.insert(id);
        }
    }
    sel.last_clicked_note = Some(id);
}

/// Opens or closes folder `id` from its arrow; both selections are cleared.
pub fn toggle_expand_folder(sel: &mut NoteSelection, expanded: &mut HashSet<u128>, id: u128)
    ensures
        final(expanded)@ == toggled(old(expanded)@, id),
        final(sel).multi_selected@.is_empty(),
        final(sel).multi_selected_folders@.is_empty(),
        final(sel).last_clicked_note == old(sel).last_clicked_note,
{
    if expanded.contains(&id) {
        expanded.remove(&id);
    } else {
        expanded.insert(id);
    }
    sel.multi_selected_folders.clear();
    sel.multi_selected.clear();
}

/// A found row is within the list and holds the id.
proof fn lemma_first_row_bound(v: Seq<(u128, bool)>, id: u128)
    ensures
        first_row(v, id) matches Some(k) ==> 0 <= k < v.len() && v[k].0 == id,
    decreases v.len(),
{
    if v.len() > 0 {
        lemma_first_row_bound(v.drop_last(), id);
    }
}

/// Toggling the same item twice (Ctrl-clicking a note or a folder twice,
/// opening and closing a folder) leaves the set as it was.
pub proof fn law_ctrl_click_twice(s: Set<u128>, id: u128)
    ensures
        toggled(toggled(s, id), id) == s,
{
    assert(toggled(toggled(s, id), id) =~= s);
}

} // verus!

verus! {

/// The folders under folder `p` in the order they are loaded: `p`'s
/// children in list order, then the subtree of each child, the last child's
/// first. `None` where `fuel` levels are not enough (with `fuel` above the
/// number of folders, only where the folders under `p` form a cycle, on
/// which the walk would never end).
pub open spec fn subtree(folders: Seq<FolderNode>, p: u128, fuel: nat) -> Option<Seq<FolderNode>>
    decreases fuel, 0nat,
{
    if fuel == 0 {
        None
    } else {
        let ch = children(folders, Some(p));
        match subtrees_rev(folders, ch, (fuel - 1) as nat) {
            Some(t) => Some(ch + t),
            None => None,
        }
    }
}

/// The subtrees of a list of sibling folders, the last sibling's first.
pub open spec fn subtrees_rev(folders: Seq<FolderNode>, kids: Seq<FolderNode>, fuel: nat) -> Option<Seq<FolderNode>>
    decreases fuel, kids.len() + 1,
{
    if kids.len() == 0 {
        Some(Seq::empty())
    } else {
        match (subtree(folders, kids.last().id, fuel), subtrees_rev(folders, kids.drop_last(), fuel)) {
            (Some(a), Some(b)) => Some(a + b),
            _ => None,
        }
    }
}

/// Each favorite folder of `favs` followed by the folders under it.
pub open spec fn favorite_trees(folders: Seq<FolderNode>, favs: Seq<FolderNode>, fuel: nat) -> Option<Seq<FolderNode>>
    decreases favs.len(),
{
    if favs.len() == 0 {
        Some(Seq::empty())
    } else {
        match (favorite_trees(folders, favs.drop_last(), fuel), subtree(folders, favs.last().id, fuel)) {
            (Some(a), Some(b)) => Some(a + seq![favs.last()] + b),
            _ => None,
        }
    }
}

/// The subfolders loaded for a view: for a folder, every folder under it;
/// for the favorites, each favorite folder followed by every folder under
/// it; none for all notes.
pub open spec fn subfolders_for(folders: Seq<FolderNode>, view: ActiveView) -> Option<Seq<FolderNode>> {
    let fuel = (folders.len() + 1) as nat;
    match view {
        ActiveView::Folder(id) => subtree(folders, id, fuel),
        ActiveView::Favorites => favorite_trees(
            folders,
            folders.filter(|f: FolderNode| f.is_favorite),
            fuel,
        ),
        ActiveView::AllNotes => Some(Seq::empty()),
    }
}

/// The children of `parent`, computed.
fn children_exec(folders: &Vec<FolderNode>, parent: Option<u128>) -> (r: Vec<FolderNode>)
    ensures
        r@ == children(folders@, parent),
{
    let mut r: Vec<FolderNode> = Vec::new();
    let mut k: usize = 0;
    while k < folders.len()
        invariant
            k <= folders.len(),
            r@ == children(folders@.take(k as int), parent),
        decreases folders.len() - k,
    {
        proof {
            reveal_with_fuel(Seq::<_>::filter, 1);
            assert(folders@.take(k + 1).drop_last() == folders@.take(k as int));
            assert(folders@.take(k + 1).last() == folders@[k as int]);
        }
        if folders[k].parent_id == parent {
            r.push(folders[k]);
        }
        k = k + 1;
    }
    assert(folders@.take(folders.len() as int) == folders@);
    r
}

/// Appends the folders under `p`; `false` where `fuel` levels are not
/// enough.
fn collect_subtree(folders: &Vec<FolderNode>, out: &mut Vec<FolderNode>, p: u128, fuel: usize) -> (ok: bool)
    ensures
        ok == subtree(folders@, p, fuel as nat) is Some,
        ok ==> final(out)@ == old(out)@ + subtree(folders@, p, fuel as nat)->0,
    decreases fuel,
{
    if fuel == 0 {
        return false;
    }
    let g = fuel - 1;
    let ch = children_exec(folders, Some(p));
    let ghost start = out@;
    let mut j: usize = 0;
    while j < ch.len()
        invariant
            j <= ch.len(),
            out@ == start + ch@.take(j as int),
        decreases ch.len() - j,
    {
        out.push(ch[j]);
        j = j + 1;
        assert(ch@.take(j as int) == ch@.take(j - 1).push(ch@[j - 1]));
    }
    assert(ch@.take(ch.len() as int) == ch@);
    let ghost fs = folders@;
    let ghost mut done: Seq<FolderNode> = Seq::empty();
    let mut k = ch.len();
    assert(ch@.take(k as int) == ch@);
    while k > 0
        invariant
            k <= ch.len(),
            fs == folders@,
            g == fuel - 1,
            fuel > 0,
            ch@ == children(fs, Some(p)),
            out@ == start + ch@ + done,
            subtrees_rev(fs, ch@, g as nat) == match subtrees_rev(fs, ch@.take(k as int), g as nat) {
                Some(rest) => Some(done + rest),
                None => None,
            },
        decreases k,
    {
        k = k - 1;
        assert(ch@.take(k + 1).drop_last() == ch@.take(k as int));
        assert(ch@.take(k + 1).last() == ch@[k as int]);
        let ghost before = out@;
        let ok = collect_subtree(folders, out, ch[k].id, g);
        if !ok {
            assert(subtrees_rev(fs, ch@.take(k + 1), g as nat) is None);
            assert(subtrees_rev(fs, ch@, g as nat) is None);
            return false;
        }
        proof {
            let a = subtree(fs, ch@[k as int].id, g as nat)->0;
            if let Some(b) = subtrees_rev(fs, ch@.take(k as int), g as nat) {
                assert(done + (a + b) == (done + a) + b);
            }
            done = done + a;
        }
    }
    assert(ch@.take(0) == Seq::<FolderNode>::empty());
    true
}

/// The subfolders the notes list loads for a view: for a folder, every
/// folder under it (its children in list order, then each child's own
/// subfolders, the last child's first); for the favorites, each favorite
/// folder followed by every folder under it; none for all notes. The
/// folders under the view's folders must not form a cycle (the walk would
/// not end).
pub fn loaded_subfolders(folders: &Vec<FolderNode>, view: &ActiveView) -> (r: Vec<FolderNode>)
    requires
        folders.len() < usize::MAX,
        subfolders_for(folders@, *view) is Some,
    ensures
        subfolders_for(folders@, *view) == Some(r@),
{
    let fuel = folders.len() + 1;
    let mut out: Vec<FolderNode> = Vec::new();
    match view {
        ActiveView::Folder(id) => {
            let ok = collect_subtree(folders, &mut out, *id, fuel);
            assert(out@ == Seq::<FolderNode>::empty() + subtree(folders@, *id, fuel as nat)->0);
            out
        },
        ActiveView::Favorites => {
            let favs = favorites_exec(folders);
            let ghost fv = favs@;
            let mut k: usize = 0;
            while k < favs.len()
                invariant
                    k <= favs.len(),
                    fv == favs@,
                    fv == folders@.filter(|f: FolderNode| f.is_favorite),
                    fuel == folders.len() + 1,
                    favorite_trees(folders@, fv, fuel as nat) is Some ==> favorite_trees(
                        folders@,
                        fv.take(k as int),
                        fuel as nat,
                    ) == Some(out@),
                    favorite_trees(folders@, fv, fuel as nat) is Some,
                decreases favs.len() - k,
            {
                proof {
                    lemma_favorite_trees_prefix(folders@, fv, k + 1, fuel as nat);
                }
                assert(fv.take(k + 1).drop_last() == fv.take(k as int));
                assert(fv.take(k + 1).last() == fv[k as int]);
                out.push(favs[k]);
                let ok = collect_subtree(folders, &mut out, favs[k].id, fuel);
                k = k + 1;
            }
            assert(fv.take(favs.len() as int) == fv);
            out
        },
        ActiveView::AllNotes => out,
    }
}

/// A prefix of a list of favorites that all load loads too.
proof fn lemma_favorite_trees_prefix(folders: Seq<FolderNode>, favs: Seq<FolderNode>, n: int, fuel: nat)
    requires
        0 <= n <= favs.len(),
        favorite_trees(folders, favs, fuel) is Some,
    ensures
        favorite_trees(folders, favs.take(n), fuel) is Some,
        n > 0 ==> subtree(folders, favs[n - 1].id, fuel) is Some,
    decreases favs.len() - n,
{
    if n < favs.len() {
        lemma_favorite_trees_prefix(folders, favs, n + 1, fuel);
        assert(favs.take(n + 1).drop_last() == favs.take(n));
        assert(favs.take(n + 1).last() == favs[n]);
    } else {
        assert(favs.take(n) == favs);
    }
    if n > 0 {
        assert(favs.take(n).last() == favs[n - 1]);
    }
}

/// The favorite folders, in list order.
fn favorites_exec(folders: &Vec<FolderNode>) -> (r: Vec<FolderNode>)
    ensures
        r@ == folders@.filter(|f: FolderNode| f.is_favorite),
{
    let mut r: Vec<FolderNode> = Vec::new();
    let mut k: usize = 0;
    while k < folders.len()
        invariant
            k <= folders.len(),
            r@ == folders@.take(k as int).filter(|f: FolderNode| f.is_favorite),
        decreases folders.len() - k,
    {
        proof {
            reveal_with_fuel(Seq::<_>::filter, 1);
            assert(folders@.take(k + 1).drop_last() == folders@.take(k as int));
            assert(folders@.take(k + 1).last() == folders@[k as int]);
        }
        if folders[k].is_favorite {
            r.push(folders[k]);
        }
        k = k + 1;
    }
    assert(folders@.take(folders.len() as int) == folders@);
    r
}

} // verus!
