use notes::notes::{refresh_preview, NotePreview, NoteType};
use notes::selection::{
    copy_selection, delete_needs_confirmation, delete_selection, drop_onto_folder, move_selection,
    DragItem,
};
use notes::tree::{FolderNode, NoteSelection};
use std::collections::HashSet;

fn sel(notes: &[u128], folders: &[u128]) -> NoteSelection {
    NoteSelection {
        multi_selected: notes.iter().copied().collect(),
        multi_selected_folders: folders.iter().copied().collect(),
        last_clicked_note: Some(7),
    }
}

fn set(v: &[u128]) -> HashSet<u128> {
    v.iter().copied().collect()
}

fn as_set(v: &[u128]) -> HashSet<u128> {
    let s: HashSet<u128> = v.iter().copied().collect();
    assert_eq!(s.len(), v.len(), "listed twice");
    s
}

#[test]
fn copy_takes_picked_items_or_open_note() {
    let (n, f) = copy_selection(&sel(&[1, 2], &[9]), Some(5));
    assert_eq!(as_set(&n), set(&[1, 2]));
    assert_eq!(as_set(&f), set(&[9]));
    let (n, f) = copy_selection(&sel(&[], &[]), Some(5));
    assert_eq!((n, f), (vec![5], vec![]));
    let (n, f) = copy_selection(&sel(&[], &[]), None);
    assert!(n.is_empty() && f.is_empty());
}

#[test]
fn drop_note_alone_or_with_selection() {
    // a note outside the selection goes alone; the picked folders go too
    let mut s = sel(&[1, 2], &[9, 4]);
    let (n, f) = drop_onto_folder(&mut s, DragItem::Note(3), Some(4)).unwrap();
    assert_eq!(n, vec![3]);
    assert_eq!(as_set(&f), set(&[9]));
    assert_eq!(s.multi_selected, set(&[1, 2]));
    assert!(s.multi_selected_folders.is_empty());
    assert_eq!(s.last_clicked_note, Some(7));
    // a picked note takes all picked notes along
    let mut s = sel(&[1, 2], &[]);
    let (n, f) = drop_onto_folder(&mut s, DragItem::Note(2), None).unwrap();
    assert_eq!(as_set(&n), set(&[1, 2]));
    assert!(f.is_empty());
    assert!(s.multi_selected.is_empty());
    // the only picked item goes alone and stays picked
    let mut s = sel(&[2], &[]);
    let (n, _) = drop_onto_folder(&mut s, DragItem::Note(2), None).unwrap();
    assert_eq!(n, vec![2]);
    assert_eq!(s.multi_selected, set(&[2]));
}

#[test]
fn drop_folder() {
    let mut s = sel(&[1], &[8]);
    assert_eq!(drop_onto_folder(&mut s, DragItem::Folder(5), Some(5)), None);
    assert_eq!(s.multi_selected, set(&[1]));
    assert_eq!(s.multi_selected_folders, set(&[8]));
    // a folder outside the selection goes alone; the picked notes go too
    let (n, f) = drop_onto_folder(&mut s, DragItem::Folder(5), Some(6)).unwrap();
    assert_eq!(f, vec![5]);
    assert_eq!(as_set(&n), set(&[1]));
    assert!(s.multi_selected.is_empty());
    assert_eq!(s.multi_selected_folders, set(&[8]));
    // a picked folder takes the picked folders, but never the target
    let mut s = sel(&[], &[8, 5, 6]);
    let (n, f) = drop_onto_folder(&mut s, DragItem::Folder(5), Some(6)).unwrap();
    assert!(n.is_empty());
    assert_eq!(as_set(&f), set(&[8, 5]));
    assert!(s.multi_selected_folders.is_empty());
}

#[test]
fn move_and_delete_picked() {
    let mut s = sel(&[], &[]);
    assert_eq!(move_selection(&mut s, Some(3)), None);
    assert_eq!(delete_selection(&mut s, Some(1)), None);
    let mut s = sel(&[1, 2], &[3, 4]);
    let (n, f) = move_selection(&mut s, Some(3)).unwrap();
    assert_eq!(as_set(&n), set(&[1, 2]));
    assert_eq!(as_set(&f), set(&[4]));
    assert!(s.multi_selected.is_empty() && s.multi_selected_folders.is_empty());
    let mut s = sel(&[1, 2], &[3]);
    let (n, f, closes) = delete_selection(&mut s, Some(2)).unwrap();
    assert_eq!(as_set(&n), set(&[1, 2]));
    assert_eq!(f, vec![3]);
    assert!(closes);
    let mut s = sel(&[1], &[]);
    let (_, _, closes) = delete_selection(&mut s, Some(9)).unwrap();
    assert!(!closes);
}

fn preview(id: u128, title: &str, snippet: &str) -> NotePreview {
    NotePreview {
        id,
        title: title.to_string(),
        snippet: snippet.to_string(),
        is_pinned: false,
        modified_at: 1,
        note_type: NoteType::Text,
    }
}

#[test]
fn delete_confirmation() {
    let notes = vec![preview(1, "", ""), preview(2, "Plans", ""), preview(3, "", "text")];
    let counts = vec![(10u128, 0usize), (11, 2)];
    let subs = vec![FolderNode { id: 20, parent_id: Some(12), is_favorite: false }];
    assert_eq!(delete_needs_confirmation(&sel(&[], &[]), &notes, &counts, &subs), None);
    assert_eq!(delete_needs_confirmation(&sel(&[1, 99], &[10, 13]), &notes, &counts, &subs), Some(false));
    assert_eq!(delete_needs_confirmation(&sel(&[1, 2], &[]), &notes, &counts, &subs), Some(true));
    assert_eq!(delete_needs_confirmation(&sel(&[3], &[]), &notes, &counts, &subs), Some(true));
    assert_eq!(delete_needs_confirmation(&sel(&[], &[11]), &notes, &counts, &subs), Some(true));
    assert_eq!(delete_needs_confirmation(&sel(&[], &[12]), &notes, &counts, &subs), Some(true));
}

#[test]
fn refresh_edited_preview() {
    let mut notes = vec![preview(1, "a", "old"), preview(2, "b", "x"), preview(1, "dup", "y")];
    let mut subs = vec![(5u128, vec![preview(2, "b", "x")]), (6, vec![preview(3, "c", "z")])];
    refresh_preview(&mut notes, &mut subs, 2, "new text", 99);
    assert_eq!(notes[1].snippet, "new text");
    assert_eq!(notes[1].modified_at, 99);
    assert_eq!(notes[0].snippet, "old");
    assert_eq!(subs[0].1[0].snippet, "new text");
    assert_eq!(subs[1].1[0].snippet, "z");
    refresh_preview(&mut notes, &mut subs, 1, "s", 5);
    // only the first preview of the note changes
    assert_eq!((notes[0].snippet.as_str(), notes[0].modified_at), ("s", 5));
    assert_eq!((notes[2].snippet.as_str(), notes[2].modified_at), ("y", 1));
}
