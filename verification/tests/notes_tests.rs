use notes::notes::{apply_sort, sort_previews, NotePreview, NoteType};
use notes::tree::{click_note, loaded_subfolders, visible_item_ids, ClickAction, FolderNode, NoteSelection};
use notes::types::{ActiveView, SortMode};
use std::collections::HashSet;

fn note(id: u128, title: &str, pinned: bool, modified: i64, t: NoteType) -> NotePreview {
    NotePreview {
        id,
        title: title.to_string(),
        snippet: String::new(),
        is_pinned: pinned,
        modified_at: modified,
        note_type: t,
    }
}

fn ids(v: &[NotePreview]) -> Vec<u128> {
    v.iter().map(|n| n.id).collect()
}

fn sample() -> Vec<NotePreview> {
    vec![
        note(1, "banana", false, 10, NoteType::Text),
        note(2, "Apple", false, 30, NoteType::Password),
        note(3, "cherry", true, 5, NoteType::Canvas),
        note(4, "apple", false, 30, NoteType::File),
        note(5, "Date", true, 50, NoteType::Text),
    ]
}

#[test]
fn sort_by_modified_pinned_first() {
    let mut v = sample();
    sort_previews(&mut v, SortMode::Modified);
    assert_eq!(ids(&v), vec![5, 3, 2, 4, 1]);
}

#[test]
fn sort_by_created_uses_change_time() {
    let mut v = sample();
    sort_previews(&mut v, SortMode::Created);
    assert_eq!(ids(&v), vec![3, 5, 1, 2, 4]);
}

#[test]
fn sort_by_name_ignores_case_and_is_stable() {
    let mut v = sample();
    sort_previews(&mut v, SortMode::NameAZ);
    assert_eq!(ids(&v), vec![3, 5, 2, 4, 1]);
    let mut v = sample();
    sort_previews(&mut v, SortMode::NameZA);
    assert_eq!(ids(&v), vec![5, 3, 1, 2, 4]);
}

#[test]
fn sort_by_type_then_title() {
    let mut v = sample();
    sort_previews(&mut v, SortMode::Type);
    assert_eq!(ids(&v), vec![3, 5, 4, 2, 1]);
}

#[test]
fn sort_subfolder_lists() {
    let mut main = sample();
    let mut subs = vec![(7u128, sample()), (8u128, Vec::new())];
    apply_sort(&mut main, &mut subs, SortMode::NameAZ);
    assert_eq!(ids(&main), vec![3, 5, 2, 4, 1]);
    assert_eq!(subs[0].0, 7);
    assert_eq!(ids(&subs[0].1), vec![3, 5, 2, 4, 1]);
    assert_eq!(subs[1].0, 8);
    assert!(subs[1].1.is_empty());
}

fn folder(id: u128, parent: Option<u128>) -> FolderNode {
    FolderNode { id, parent_id: parent, is_favorite: false }
}

fn tree() -> (Vec<FolderNode>, Vec<(u128, Vec<NotePreview>)>, Vec<NotePreview>) {
    let folders = vec![folder(10, Some(1)), folder(11, Some(10)), folder(12, Some(1)), folder(13, Some(11))];
    let subs = vec![
        (10, vec![note(100, "a", false, 0, NoteType::Text)]),
        (11, vec![note(110, "b", false, 0, NoteType::Text), note(111, "c", false, 0, NoteType::Text)]),
    ];
    let main = vec![note(1000, "m", false, 0, NoteType::Text)];
    (folders, subs, main)
}

#[test]
fn visible_rows_follow_the_tree() {
    let (folders, subs, main) = tree();
    let mut expanded = HashSet::new();
    expanded.insert(10u128);
    let rows = visible_item_ids(&folders, &expanded, &subs, &ActiveView::Folder(1), &main);
    assert_eq!(rows, vec![(10, true), (100, false), (11, true), (12, true), (1000, false)]);
    expanded.insert(11u128);
    let rows = visible_item_ids(&folders, &expanded, &subs, &ActiveView::Folder(1), &main);
    assert_eq!(
        rows,
        vec![(10, true), (100, false), (11, true), (110, false), (111, false), (13, true), (12, true), (1000, false)]
    );
    let rows = visible_item_ids(&folders, &expanded, &subs, &ActiveView::AllNotes, &main);
    assert_eq!(rows, vec![(1000, false)]);
}

fn empty_selection() -> NoteSelection {
    NoteSelection { multi_selected: HashSet::new(), multi_selected_folders: HashSet::new(), last_clicked_note: None }
}

#[test]
fn ctrl_click_toggles() {
    let mut sel = empty_selection();
    assert_eq!(click_note(&mut sel, 5, true, false, false, &vec![]), ClickAction::SelectionChanged);
    assert!(sel.multi_selected.contains(&5));
    assert_eq!(sel.last_clicked_note, Some(5));
    click_note(&mut sel, 5, true, false, false, &vec![]);
    assert!(sel.multi_selected.is_empty());
}

#[test]
fn shift_click_selects_range() {
    let rows = vec![(10, true), (100, false), (11, true), (12, true), (1000, false)];
    let mut sel = empty_selection();
    click_note(&mut sel, 1000, true, false, false, &rows);
    assert_eq!(click_note(&mut sel, 100, false, true, false, &rows), ClickAction::SelectionChanged);
    let notes: HashSet<u128> = [100, 1000].into_iter().collect();
    let folders: HashSet<u128> = [11, 12].into_iter().collect();
    assert_eq!(sel.multi_selected, notes);
    assert_eq!(sel.multi_selected_folders, folders);
    assert_eq!(sel.last_clicked_note, Some(100));
    click_note(&mut sel, 999, false, true, false, &rows);
    assert_eq!(sel.multi_selected, notes);
}

#[test]
fn plain_and_alt_clicks() {
    let mut sel = empty_selection();
    click_note(&mut sel, 1, true, false, false, &vec![]);
    assert_eq!(click_note(&mut sel, 2, false, false, true, &vec![]), ClickAction::OpenInNewWindow);
    assert_eq!(sel.last_clicked_note, Some(1));
    assert!(sel.multi_selected.contains(&1));
    assert_eq!(click_note(&mut sel, 2, false, false, false, &vec![]), ClickAction::OpenNote);
    assert!(sel.multi_selected.is_empty());
    assert_eq!(sel.last_clicked_note, Some(2));
}

fn ids_of(v: &[FolderNode]) -> Vec<u128> {
    v.iter().map(|f| f.id).collect()
}

#[test]
fn subfolders_load_last_child_first() {
    // 1 has children 2 and 3; 3 has 4 and 5; 4 has 6; 2 has 7
    let folders = vec![
        folder(2, Some(1)),
        folder(3, Some(1)),
        folder(4, Some(3)),
        folder(5, Some(3)),
        folder(6, Some(4)),
        folder(7, Some(2)),
        folder(8, None),
    ];
    assert_eq!(ids_of(&loaded_subfolders(&folders, &ActiveView::Folder(1))), vec![2, 3, 4, 5, 6, 7]);
    assert_eq!(ids_of(&loaded_subfolders(&folders, &ActiveView::Folder(3))), vec![4, 5, 6]);
    assert!(loaded_subfolders(&folders, &ActiveView::Folder(6)).is_empty());
    assert!(loaded_subfolders(&folders, &ActiveView::AllNotes).is_empty());
}

#[test]
fn favorites_load_with_their_subfolders() {
    let mut folders = vec![folder(1, None), folder(2, Some(1)), folder(3, None), folder(4, Some(3))];
    folders[2].is_favorite = true;
    folders[1].is_favorite = true;
    assert_eq!(ids_of(&loaded_subfolders(&folders, &ActiveView::Favorites)), vec![2, 3, 4]);
}
