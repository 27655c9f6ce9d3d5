use notes::folders::{move_picker_entries, rename_folder, FolderEntry};
use notes::notes::{save_action, submit_note_rename, BodySource, NotePreview, NoteType, SaveAction};
use notes::types::{escape_action, EscapeAction};

fn preview(id: u128, title: &str) -> NotePreview {
    NotePreview {
        id,
        title: title.to_string(),
        snippet: String::new(),
        is_pinned: false,
        modified_at: 0,
        note_type: NoteType::Text,
    }
}

fn titles(v: &[NotePreview]) -> Vec<&str> {
    v.iter().map(|n| n.title.as_str()).collect()
}

#[test]
fn note_rename_uses_typed_title() {
    let mut notes = vec![preview(1, "old"), preview(2, "b"), preview(1, "dup")];
    let mut subs = vec![(9u128, vec![preview(1, "old"), preview(1, "again")])];
    let t = submit_note_rename(&mut notes, &mut subs, 1, "New", None);
    assert_eq!(t, "New");
    // first preview in the main list, every preview in the subfolders
    assert_eq!(titles(&notes), vec!["New", "b", "dup"]);
    assert_eq!(titles(&subs[0].1), vec!["New", "New"]);
}

#[test]
fn note_rename_with_nothing_typed_keeps_title() {
    let mut notes = vec![preview(2, "kept")];
    let mut subs = vec![];
    assert_eq!(submit_note_rename(&mut notes, &mut subs, 2, "", Some((2, "other"))), "kept");
    assert_eq!(titles(&notes), vec!["kept"]);
    // not listed: the open note's title, if it is this note
    let mut notes = vec![preview(3, "x")];
    assert_eq!(submit_note_rename(&mut notes, &mut subs, 5, "", Some((5, "open"))), "open");
    assert_eq!(submit_note_rename(&mut notes, &mut subs, 5, "", Some((6, "open"))), "");
    assert_eq!(submit_note_rename(&mut notes, &mut subs, 5, "", None), "");
    assert_eq!(titles(&notes), vec!["x"]);
}

fn folder(id: u128, name: &str) -> FolderEntry {
    FolderEntry { id, parent_id: None, sort_order: 0, name: name.to_string() }
}

#[test]
fn folder_rename() {
    let mut roots = vec![folder(1, "a"), folder(2, "b")];
    let mut subs = vec![folder(2, "b"), folder(3, "c")];
    assert!(!rename_folder(&mut roots, &mut subs, 2, "   "));
    assert_eq!(roots[1].name, "b");
    assert!(rename_folder(&mut roots, &mut subs, 2, " Work "));
    assert_eq!(roots[1].name, " Work ");
    assert_eq!(subs[0].name, " Work ");
    assert_eq!((roots[0].name.as_str(), subs[1].name.as_str()), ("a", "c"));
}

#[test]
fn escape_closes_innermost_first() {
    assert_eq!(escape_action(true, true, true, true, true, true), EscapeAction::CancelNoteRename);
    assert_eq!(escape_action(false, true, true, true, true, true), EscapeAction::CancelFolderRename);
    assert_eq!(escape_action(false, false, true, true, true, true), EscapeAction::CloseDialog);
    assert_eq!(escape_action(false, false, false, true, true, true), EscapeAction::CloseSearch);
    assert_eq!(escape_action(false, false, false, false, true, true), EscapeAction::CloseContextMenu);
    assert_eq!(escape_action(false, false, false, false, false, true), EscapeAction::BlurEditor);
    assert_eq!(escape_action(false, false, false, false, false, false), EscapeAction::Nothing);
}

#[test]
fn move_picker_lists_top_level_then_roots() {
    let fs = vec![
        FolderEntry { id: 1, parent_id: None, sort_order: 0, name: "a".to_string() },
        FolderEntry { id: 2, parent_id: Some(1), sort_order: 0, name: "b".to_string() },
        FolderEntry { id: 3, parent_id: None, sort_order: 1, name: "c".to_string() },
    ];
    assert_eq!(move_picker_entries(&fs, Some(3)), vec![(None, false), (Some(1), false), (Some(3), true)]);
    assert_eq!(move_picker_entries(&fs, None), vec![(None, true), (Some(1), false), (Some(3), false)]);
    assert_eq!(move_picker_entries(&fs, Some(2)), vec![(None, false), (Some(1), false), (Some(3), false)]);
}

#[test]
fn saving_by_kind_and_lock() {
    assert_eq!(save_action(None), SaveAction::Nothing);
    assert_eq!(save_action(Some((NoteType::Text, false, false))), SaveAction::Store(BodySource::Lines));
    assert_eq!(save_action(Some((NoteType::File, false, true))), SaveAction::Store(BodySource::Lines));
    assert_eq!(save_action(Some((NoteType::Canvas, true, true))), SaveAction::Reencrypt(BodySource::Canvas));
    assert_eq!(
        save_action(Some((NoteType::Password, true, true))),
        SaveAction::Reencrypt(BodySource::PasswordFields)
    );
    assert_eq!(save_action(Some((NoteType::Password, true, false))), SaveAction::MarkSaved);
}
