//! What is done with the notes and folders picked in the sidebar: copying
//! them, dropping them onto a folder, moving and deleting them.
use vstd::prelude::*;
use std::collections::HashSet;
use vstd::std_specs::iter::IteratorSpec;
use crate::notes::{first_preview, first_preview_exec, NotePreview};
use crate::tree::{FolderNode, NoteSelection};

verus! {

broadcast use {vstd::std_specs::hash::group_hash_axioms, vstd::seq_lib::group_seq_properties};

/// The items of a set, each once, in the set's own order.
fn items_of(s: &HashSet<u128>) -> (v: Vec<u128>)
    ensures
        v@.to_set() == s@,
        v@.no_duplicates(),
{
    let mut v: Vec<u128> = Vec::new();
    let ghost keys = vstd::std_specs::hash::spec_hash_keys_iter(s).remaining();
    for x in it: s.iter()
        invariant
            it.seq() == keys,
            keys == vstd::std_specs::hash::spec_hash_keys_iter(s).remaining(),
            v@.len() == it.index(),
            forall|i: int| 0 <= i < it.index() ==> v@[i] == *keys[i],
    {
        v.push(*x);
    }
    assert(v@.len() == keys.len());
    assert(v@ =~= keys.unref());
    v
}

/// `v` lists the items of `s`, each once.
pub open spec fn lists(v: Seq<u128>, s: Set<u128>) -> bool {
    v.to_set() == s && v.no_duplicates()
}

/// The items of a set without `x` where `x` is some id.
pub open spec fn but(s: Set<u128>, x: Option<u128>) -> Set<u128> {
    match x {
        Some(id) => s.remove(id),
        None => s,
    }
}

/// The items of `v` other than `x` (where `x` is some id), in order.
fn without_item(v: &Vec<u128>, x: Option<u128>) -> (r: Vec<u128>)
    requires
        v@.no_duplicates(),
    ensures
        lists(r@, but(v@.to_set(), x)),
{
    let mut r: Vec<u128> = Vec::new();
    let mut i: usize = 0;
    while i < v.len()
        invariant
            i <= v.len(),
            v@.no_duplicates(),
            r@.no_duplicates(),
            r@.to_set() == but(v@.take(i as int).to_set(), x),
            forall|y: u128| r@.contains(y) ==> v@.take(i as int).contains(y),
        decreases v.len() - i,
    {
        let y = v[i];
        assert(v@.take(i + 1) == v@.take(i as int).push(y));
        if Some(y) != x {
            proof {
                if r@.contains(y) {
                    let k = choose|k: int| 0 <= k < i && v@.take(i as int)[k] == y;
                    assert(v@[k] == v@[i as int]);
                }
            }
            let ghost r0 = r@;
            r.push(y);
            proof {
                assert(r@ == r0.push(y));
                r0.lemma_push_to_set_commute(y);
                v@.take(i as int).lemma_push_to_set_commute(y);
                assert(r@.to_set() == r0.to_set().insert(y));
                assert(v@.take(i + 1).to_set() == v@.take(i as int).to_set().insert(y));
                assert(r@.to_set() =~= but(v@.take(i + 1).to_set(), x));
            }
        } else {
            proof {
                v@.take(i as int).lemma_push_to_set_commute(y);
            }
            assert(r@.to_set() =~= but(v@.take(i + 1).to_set(), x));
        }
        i = i + 1;
    }
    assert(v@.take(v.len() as int) == v@);
    r
}

/// Takes every item out of a set and lists them.
fn drain_items(s: &mut HashSet<u128>) -> (v: Vec<u128>)
    ensures
        lists(v@, old(s)@),
        final(s)@.is_empty(),
{
    let v = items_of(s);
    s.clear();
    v
}

/// What "Copy" puts on the sidebar's clipboard: the picked notes and
/// folders; with nothing picked, the open note alone.
pub fn copy_selection(sel: &NoteSelection, open_note: Option<u128>) -> (r: (Vec<u128>, Vec<u128>))
    ensures
        !sel.multi_selected@.is_empty() || !sel.multi_selected_folders@.is_empty() ==> lists(
            r.0@,
            sel.multi_selected@,
        ) && lists(r.1@, sel.multi_selected_folders@),
        sel.multi_selected@.is_empty() && sel.multi_selected_folders@.is_empty() ==> r.1@.len() == 0
            && r.0@ == match open_note {
            Some(id) => seq![id],
            None => Seq::<u128>::empty(),
        },
{
    if !sel.multi_selected.is_empty() || !sel.multi_selected_folders.is_empty() {
        (items_of(&sel.multi_selected), items_of(&sel.multi_selected_folders))
    } else {
        let mut notes: Vec<u128> = Vec::new();
        if let Some(id) = open_note {
            notes.push(id);
        }
        (notes, Vec::new())
    }
}

/// An item dragged in the sidebar.
#[derive(Debug, Clone, Copy, PartialEq, Eq, Structural)]
pub enum DragItem {
    Note(u128),
    Folder(u128),
}

/// Whether more than one item is picked in all.
pub open spec fn several_picked(sel: NoteSelection) -> bool {
    sel.multi_selected@.len() + sel.multi_selected_folders@.len() > 1
}

/// Whether more than one item is picked in all, computed.
fn several_picked_exec(sel: &NoteSelection) -> (b: bool)
    ensures
        b == several_picked(*sel),
{
    let a = sel.multi_selected.len();
    let b = sel.multi_selected_folders.len();
    a > 1 || b > 1 || (a == 1 && b == 1)
}

/// Dropping `item` onto folder `target` (none: the top level). A dragged
/// note that is among the picked items (with more than one picked) takes
/// all picked notes along, else it goes alone; the picked folders go too
/// when more than one note goes or any folder is picked. A dragged folder
/// works the same way the other way round, and dropping a folder onto
/// itself does nothing. Returns the notes to move and the folders to put
/// under `target` (never `target` itself); what goes leaves the selection.
pub fn drop_onto_folder(sel: &mut NoteSelection, item: DragItem, target: Option<u128>) -> (r: Option<(Vec<u128>, Vec<u128>)>)
    ensures
        final(sel).last_clicked_note == old(sel).last_clicked_note,
        match item {
            DragItem::Note(id) => {
                let all = old(sel).multi_selected@.contains(id) && several_picked(*old(sel));
                r matches Some((notes, folders)) && (if all {
                    lists(notes@, old(sel).multi_selected@) && final(sel).multi_selected@.is_empty()
                } else {
                    notes@ == seq![id] && final(sel).multi_selected@ == old(sel).multi_selected@
                }) && lists(folders@, but(old(sel).multi_selected_folders@, target))
                    && final(sel).multi_selected_folders@.is_empty()
            },
            DragItem::Folder(id) => if Some(id) == target {
                r is None && final(sel).multi_selected@ == old(sel).multi_selected@
                    && final(sel).multi_selected_folders@ == old(sel).multi_selected_folders@
            } else {
                let all = old(sel).multi_selected_folders@.contains(id) && several_picked(*old(sel));
                r matches Some((notes, folders)) && (if all {
                    lists(folders@, but(old(sel).multi_selected_folders@, target))
                        && final(sel).multi_selected_folders@.is_empty()
                } else {
                    folders@ == seq![id] && final(sel).multi_selected_folders@ == old(
                        sel,
                    ).multi_selected_folders@
                }) && lists(notes@, old(sel).multi_selected@) && final(sel).multi_selected@.is_empty()
            },
        },
{
    match item {
        DragItem::Note(id) => {
            let all = sel.multi_selected.contains(&id) && several_picked_exec(sel);
            let notes = if all {
                drain_items(&mut sel.multi_selected)
            } else {
                vec![id]
            };
            let folders = drain_items(&mut sel.multi_selected_folders);
            Some((notes, without_item(&folders, target)))
        },
        DragItem::Folder(id) => {
            if Some(id) == target {
                return None;
            }
            let all = sel.multi_selected_folders.contains(&id) && several_picked_exec(sel);
            let folders = if all {
                let f = drain_items(&mut sel.multi_selected_folders);
                without_item(&f, target)
            } else {
                vec![id]
            };
            let notes = drain_items(&mut sel.multi_selected);
            Some((notes, folders))
        },
    }
}

/// "Move to folder" on the picked items: nothing when nothing is picked;
/// otherwise every picked note moves to `target` and every picked folder
/// other than `target` goes under it. The selection is emptied.
pub fn move_selection(sel: &mut NoteSelection, target: Option<u128>) -> (r: Option<(Vec<u128>, Vec<u128>)>)
    ensures
        final(sel).last_clicked_note == old(sel).last_clicked_note,
        old(sel).multi_selected@.is_empty() && old(sel).multi_selected_folders@.is_empty() ==> r is None
            && final(sel).multi_selected@ == old(sel).multi_selected@
            && final(sel).multi_selected_folders@ == old(sel).multi_selected_folders@,
        !(old(sel).multi_selected@.is_empty() && old(sel).multi_selected_folders@.is_empty()) ==> (
        r matches Some((notes, folders)) && lists(notes@, old(sel).multi_selected@) && lists(
            folders@,
            but(old(sel).multi_selected_folders@, target),
        ) && final(sel).multi_selected@.is_empty() && final(sel).multi_selected_folders@.is_empty()),
{
    if sel.multi_selected.is_empty() && sel.multi_selected_folders.is_empty() {
        return None;
    }
    let notes = drain_items(&mut sel.multi_selected);
    let folders = drain_items(&mut sel.multi_selected_folders);
    Some((notes, without_item(&folders, target)))
}

/// Deleting the picked items: nothing when nothing is picked; otherwise all
/// picked notes and folders are deleted and the selection is emptied. The
/// flag says whether the open note is among the deleted notes (it is then
/// closed).
pub fn delete_selection(sel: &mut NoteSelection, open_note: Option<u128>) -> (r: Option<(Vec<u128>, Vec<u128>, bool)>)
    ensures
        final(sel).last_clicked_note == old(sel).last_clicked_note,
        old(sel).multi_selected@.is_empty() && old(sel).multi_selected_folders@.is_empty() ==> r is None
            && final(sel).multi_selected@ == old(sel).multi_selected@
            && final(sel).multi_selected_folders@ == old(sel).multi_selected_folders@,
        !(old(sel).multi_selected@.is_empty() && old(sel).multi_selected_folders@.is_empty()) ==> (
        r matches Some((notes, folders, closes)) && lists(notes@, old(sel).multi_selected@) && lists(
            folders@,
            old(sel).multi_selected_folders@,
        ) && closes == (open_note matches Some(id) && old(sel).multi_selected@.contains(id))
            && final(sel).multi_selected@.is_empty() && final(sel).multi_selected_folders@.is_empty()),
{
    if sel.multi_selected.is_empty() && sel.multi_selected_folders.is_empty() {
        return None;
    }
    let closes = match open_note {
        Some(id) => sel.multi_selected.contains(&id),
        None => false,
    };
    let notes = drain_items(&mut sel.multi_selected);
    let folders = drain_items(&mut sel.multi_selected_folders);
    Some((notes, folders, closes))
}

/// Whether a picked note is blank: listed with an empty title and an empty
/// snippet, or not listed at all.
pub open spec fn note_is_blank(notes: Seq<NotePreview>, id: u128) -> bool {
    match first_preview(notes, id) {
        Some(k) => notes[k].title@.len() == 0 && notes[k].snippet@.len() == 0,
        None => true,
    }
}

/// The note count of a folder: that of its first entry, or 0.
pub open spec fn folder_count(counts: Seq<(u128, usize)>, id: u128) -> nat
    decreases counts.len(),
{
    if counts.len() == 0 {
        0
    } else if counts[0].0 == id {
        counts[0].1 as nat
    } else {
        folder_count(counts.drop_first(), id)
    }
}

/// Whether a picked folder is bare: no notes and no subfolders.
pub open spec fn folder_is_bare(counts: Seq<(u128, usize)>, subfolders: Seq<FolderNode>, id: u128) -> bool {
    folder_count(counts, id) == 0 && forall|k: int|
        0 <= k < subfolders.len() ==> #[trigger] subfolders[k].parent_id != Some(id)
}

/// Whether a picked note is blank, computed.
fn note_is_blank_exec(notes: &Vec<NotePreview>, id: u128) -> (b: bool)
    ensures
        b == note_is_blank(notes@, id),
{
    match first_preview_exec(notes, id) {
        Some(k) => notes[k].title.as_str().is_empty() && notes[k].snippet.as_str().is_empty(),
        None => true,
    }
}

/// Whether a picked folder is bare, computed.
fn folder_is_bare_exec(counts: &Vec<(u128, usize)>, subfolders: &Vec<FolderNode>, id: u128) -> (b: bool)
    ensures
        b == folder_is_bare(counts@, subfolders@, id),
{
    let mut i: usize = 0;
    let mut count: usize = 0;
    let mut found = false;
    assert(counts@.skip(0) == counts@);
    while i < counts.len() && !found
        invariant
            i <= counts.len(),
            !found ==> count == 0 && folder_count(counts@, id) == folder_count(counts@.skip(i as int), id),
            found ==> folder_count(counts@, id) == count as nat,
        decreases counts.len() - i, if found { 0int } else { 1int },
    {
        assert(counts@.skip(i as int)[0] == counts@[i as int]);
        if counts[i].0 == id {
            count = counts[i].1;
            found = true;
        } else {
            assert(counts@.skip(i as int).drop_first() == counts@.skip(i + 1));
            i = i + 1;
        }
    }
    assert(folder_count(counts@, id) == count as nat);
    if count != 0 {
        return false;
    }
    let mut k: usize = 0;
    while k < subfolders.len()
        invariant
            k <= subfolders.len(),
            forall|j: int| 0 <= j < k ==> #[trigger] subfolders@[j].parent_id != Some(id),
        decreases subfolders.len() - k,
    {
        if subfolders[k].parent_id == Some(id) {
            return false;
        }
        k = k + 1;
    }
    true
}

/// Whether deleting the picked items asks for confirmation first: `None`
/// when nothing is picked; no confirmation when every picked note is blank
/// and every picked folder is bare.
pub fn delete_needs_confirmation(
    sel: &NoteSelection,
    notes: &Vec<NotePreview>,
    counts: &Vec<(u128, usize)>,
    subfolders: &Vec<FolderNode>,
) -> (r: Option<bool>)
    ensures
        sel.multi_selected@.is_empty() && sel.multi_selected_folders@.is_empty() ==> r is None,
        !(sel.multi_selected@.is_empty() && sel.multi_selected_folders@.is_empty()) ==> r == Some(
            !((forall|id: u128| #[trigger] sel.multi_selected@.contains(id) ==> note_is_blank(notes@, id))
                && (forall|id: u128|
                #[trigger] sel.multi_selected_folders@.contains(id) ==> folder_is_bare(
                    counts@,
                    subfolders@,
                    id,
                ))),
        ),
{
    if sel.multi_selected.is_empty() && sel.multi_selected_folders.is_empty() {
        return None;
    }
    let ns = items_of(&sel.multi_selected);
    let fs = items_of(&sel.multi_selected_folders);
    let mut blank = true;
    let mut i: usize = 0;
    while i < ns.len()
        invariant
            i <= ns.len(),
            blank == forall|j: int| 0 <= j < i ==> note_is_blank(notes@, #[trigger] ns@[j]),
        decreases ns.len() - i,
    {
        let b = note_is_blank_exec(notes, ns[i]);
        blank = blank && b;
        i = i + 1;
    }
    let mut bare = true;
    let mut k: usize = 0;
    while k < fs.len()
        invariant
            k <= fs.len(),
            bare == forall|j: int| 0 <= j < k ==> folder_is_bare(counts@, subfolders@, #[trigger] fs@[j]),
        decreases fs.len() - k,
    {
        let b = folder_is_bare_exec(counts, subfolders, fs[k]);
        bare = bare && b;
        k = k + 1;
    }
    proof {
        assert((forall|id: u128| #[trigger] sel.multi_selected@.contains(id) ==> note_is_blank(notes@, id)) == blank) by {
            if blank {
                assert forall|id: u128| #[trigger] sel.multi_selected@.contains(id) implies note_is_blank(notes@, id) by {
                    assert(ns@.to_set().contains(id));
                    let j = choose|j: int| 0 <= j < ns@.len() && ns@[j] == id;
                }
            } else {
                let j = choose|j: int| 0 <= j < ns@.len() && !note_is_blank(notes@, #[trigger] ns@[j]);
                assert(ns@.to_set().contains(ns@[j]));
            }
        }
        assert((forall|id: u128| #[trigger] sel.multi_selected_folders@.contains(id) ==> folder_is_bare(counts@, subfolders@, id)) == bare) by {
            if bare {
                assert forall|id: u128| #[trigger] sel.multi_selected_folders@.contains(id) implies folder_is_bare(counts@, subfolders@, id) by {
                    assert(fs@.to_set().contains(id));
                    let j = choose|j: int| 0 <= j < fs@.len() && fs@[j] == id;
                }
            } else {
                let j = choose|j: int| 0 <= j < fs@.len() && !folder_is_bare(counts@, subfolders@, #[trigger] fs@[j]);
                assert(fs@.to_set().contains(fs@[j]));
            }
        }
    }
    Some(!(blank && bare))
}

} // verus!
