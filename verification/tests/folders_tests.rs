use notes::folders::{move_before, move_to_end, reorder_folder, reorder_to_end, sort_folders, FolderEntry};
use notes::forms::{check_new_password, parse_hex_color, PasswordError};
use notes::tree::{click_folder, toggle_expand_folder, NoteSelection};
use notes::words::{copy_name, numbered_file_name};
use std::collections::HashSet;

fn folder(id: u128, parent: Option<u128>, order: i32, name: &str) -> FolderEntry {
    FolderEntry { id, parent_id: parent, sort_order: order, name: name.to_string() }
}

fn ids(v: &[FolderEntry]) -> Vec<u128> {
    v.iter().map(|f| f.id).collect()
}

fn orders(v: &[FolderEntry]) -> Vec<(u128, i32)> {
    v.iter().map(|f| (f.id, f.sort_order)).collect()
}

fn sidebar() -> Vec<FolderEntry> {
    vec![
        folder(1, None, 0, "Work"),
        folder(2, None, 1, "Home"),
        folder(9, Some(1), 0, "Reports"),
        folder(3, None, 2, "Ideas"),
        folder(4, None, 3, "Archive"),
    ]
}

#[test]
fn move_before_puts_item_before_target() {
    assert_eq!(move_before(&vec![1, 2, 3, 4], 4, 2), vec![1, 4, 2, 3]);
    assert_eq!(move_before(&vec![1, 2, 3, 4], 1, 3), vec![2, 1, 3, 4]);
    // a target that is not in the order sends the item to the end
    assert_eq!(move_before(&vec![1, 2, 3, 4], 2, 7), vec![1, 3, 4, 2]);
    // an item not in the order is added before the target
    assert_eq!(move_before(&vec![1, 2, 3], 8, 3), vec![1, 2, 8, 3]);
}

#[test]
fn move_to_end_puts_item_last() {
    assert_eq!(move_to_end(&vec![1, 2, 3], 1), vec![2, 3, 1]);
    assert_eq!(move_to_end(&vec![1, 2, 3], 3), vec![1, 2, 3]);
    assert_eq!(move_to_end(&vec![], 5), vec![5]);
}

#[test]
fn reorder_root_folder_renumbers_and_sorts() {
    let mut fs = sidebar();
    let order = reorder_folder(&mut fs, 4, 2);
    assert_eq!(order, Some(vec![1, 4, 2, 3]));
    // roots take their new places; the subfolder keeps its stored position
    // and sorts by position, then name ("Reports" before "Work")
    assert_eq!(orders(&fs), vec![(9, 0), (1, 0), (4, 1), (2, 2), (3, 3)]);
}

#[test]
fn reorder_onto_itself_changes_nothing() {
    let mut fs = sidebar();
    assert_eq!(reorder_folder(&mut fs, 2, 2), None);
    assert_eq!(ids(&fs), vec![1, 2, 9, 3, 4]);
    assert_eq!(orders(&fs), orders(&sidebar()));
}

#[test]
fn reorder_to_end_moves_root_last() {
    let mut fs = sidebar();
    let order = reorder_to_end(&mut fs, 1);
    assert_eq!(order, vec![2, 3, 4, 1]);
    assert_eq!(orders(&fs), vec![(2, 0), (9, 0), (3, 1), (4, 2), (1, 3)]);
}

#[test]
fn sort_folders_by_position_then_name() {
    let mut fs = vec![
        folder(1, None, 2, "b"),
        folder(2, None, 1, "z"),
        folder(3, None, 1, "a"),
        folder(4, None, 2, "b"),
        folder(5, None, -1, "m"),
    ];
    sort_folders(&mut fs);
    assert_eq!(ids(&fs), vec![5, 3, 2, 1, 4]);
}

#[test]
fn law_reorder_lists_roots_in_new_order() {
    let mut fs = vec![
        folder(10, None, 0, "a"),
        folder(11, Some(10), 1, "sub"),
        folder(12, None, 1, "b"),
        folder(13, None, 2, "c"),
    ];
    let order = reorder_folder(&mut fs, 13, 10).unwrap();
    let roots: Vec<u128> = fs.iter().filter(|f| f.parent_id.is_none()).map(|f| f.id).collect();
    assert_eq!(roots, order);
    // the others keep their relative order, the moved folder appears once
    let rest: Vec<u128> = order.iter().copied().filter(|x| *x != 13).collect();
    assert_eq!(rest, vec![10, 12]);
    assert_eq!(order.iter().filter(|x| **x == 13).count(), 1);
}

fn selection() -> NoteSelection {
    NoteSelection { multi_selected: HashSet::new(), multi_selected_folders: HashSet::new(), last_clicked_note: None }
}

#[test]
fn folder_clicks() {
    let visible = vec![(1u128, true), (5, false), (2, true), (6, false)];
    let mut sel = selection();
    let mut expanded: HashSet<u128> = HashSet::new();
    // plain click opens the folder and clears the selection
    sel.multi_selected.insert(6);
    click_folder(&mut sel, &mut expanded, 1, false, false, &visible);
    assert!(expanded.contains(&1));
    assert!(sel.multi_selected.is_empty());
    assert_eq!(sel.last_clicked_note, Some(1));
    // shift-click selects the rows in between, notes and folders apart
    click_folder(&mut sel, &mut expanded, 2, false, true, &visible);
    assert_eq!(sel.multi_selected_folders, [1u128, 2].into_iter().collect());
    assert_eq!(sel.multi_selected, [5u128].into_iter().collect());
    assert!(expanded.contains(&1) && !expanded.contains(&2));
    // ctrl-click toggles the folder; twice gives the selection back
    let before = sel.multi_selected_folders.clone();
    click_folder(&mut sel, &mut expanded, 2, true, false, &visible);
    assert!(!sel.multi_selected_folders.contains(&2));
    click_folder(&mut sel, &mut expanded, 2, true, false, &visible);
    assert_eq!(sel.multi_selected_folders, before);
    // a second plain click closes the folder
    click_folder(&mut sel, &mut expanded, 1, false, false, &visible);
    assert!(expanded.is_empty());
}

#[test]
fn expand_arrow_clears_selection() {
    let mut sel = selection();
    sel.multi_selected.insert(3);
    sel.multi_selected_folders.insert(4);
    sel.last_clicked_note = Some(3);
    let mut expanded: HashSet<u128> = HashSet::new();
    toggle_expand_folder(&mut sel, &mut expanded, 4);
    assert!(expanded.contains(&4));
    assert!(sel.multi_selected.is_empty() && sel.multi_selected_folders.is_empty());
    assert_eq!(sel.last_clicked_note, Some(3));
    toggle_expand_folder(&mut sel, &mut expanded, 4);
    assert!(expanded.is_empty());
}

#[test]
fn new_password_checks() {
    assert_eq!(check_new_password("abcd", "abce"), Err(PasswordError::Mismatch));
    assert_eq!(check_new_password("abc", "abcd"), Err(PasswordError::Mismatch));
    assert_eq!(check_new_password("abc", "abc"), Err(PasswordError::TooShort));
    assert_eq!(check_new_password("", ""), Err(PasswordError::TooShort));
    assert_eq!(check_new_password("abcd", "abcd"), Ok(()));
    // the length is counted in bytes: two two-byte characters are enough
    assert_eq!(check_new_password("\u{e9}\u{e9}", "\u{e9}\u{e9}"), Ok(()));
    assert_eq!(PasswordError::Mismatch.message(), "Passwords don't match");
    assert_eq!(PasswordError::TooShort.message(), "Password too short (min 4)");
}

#[test]
fn hex_colors() {
    assert_eq!(parse_hex_color("#ff8000"), Some((255, 128, 0)));
    assert_eq!(parse_hex_color("FF8000"), Some((255, 128, 0)));
    assert_eq!(parse_hex_color("##0a0B0c"), Some((10, 11, 12)));
    assert_eq!(parse_hex_color("+f+f+f"), Some((15, 15, 15)));
    assert_eq!(parse_hex_color("#ff80"), None);
    assert_eq!(parse_hex_color("#ff80001"), None);
    assert_eq!(parse_hex_color("gg0000"), None);
    assert_eq!(parse_hex_color("f+0000"), None);
    assert_eq!(parse_hex_color("-10000"), None);
    assert_eq!(parse_hex_color(""), None);
    // six bytes, but a character spans a pair: the pair does not parse
    assert_eq!(parse_hex_color("\u{e9}0000"), None);
}

#[test]
fn copy_and_numbered_names() {
    assert_eq!(copy_name("Plans"), "Plans (copy)");
    assert_eq!(copy_name(""), " (copy)");
    assert_eq!(numbered_file_name("report", "pdf", 1), "report (1).pdf");
    assert_eq!(numbered_file_name("notes", "", 12), "notes (12)");
}
