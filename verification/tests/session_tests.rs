use notes::editor::renumber_list;
use notes::notes::{NotePreview, NoteType};
use notes::folders::FolderEntry;
use notes::session::{
    lock_vault, new_app_state, restore_window_state, snapshot_window_state, step, submit_setup,
    change_password_check, wipe, Action, AppState, Event, Loaded, SaveRequest, SetupError,
    VaultPasswordError, ViewSwitch,
};
use notes::search::SearchMatch;
use notes::snippet::generate_snippet;
use notes::types::{ActiveView, SortMode, VaultState};

fn preview(id: u128, title: &str, modified_at: i64) -> NotePreview {
    NotePreview {
        id,
        title: title.to_string(),
        snippet: String::new(),
        is_pinned: false,
        modified_at,
        note_type: NoteType::Text,
    }
}

fn loaded(notes: Vec<NotePreview>, subfolder_notes: Vec<(u128, Vec<NotePreview>)>) -> Loaded {
    Loaded {
        folders: vec![],
        notes,
        all_count: 0,
        fav_count: 0,
        folder_counts: vec![],
        subfolders: vec![],
        subfolder_notes,
    }
}

/// Runs one event where no rename is pending; the event's own action.
fn act(s: &mut AppState, e: Event) -> Action {
    let (submitted, a) = step(s, e);
    assert!(submitted.is_none());
    a
}

fn unlocked_state() -> AppState {
    let mut s = new_app_state(true, SortMode::Modified, 1);
    s.session.vault_state = VaultState::Unlocked;
    s.session.vault_key = Some(vec![7, 7, 7]);
    s
}

#[test]
fn start_screen_depends_on_stored_password() {
    assert_eq!(new_app_state(true, SortMode::Created, 1).session.vault_state, VaultState::Login);
    assert_eq!(new_app_state(false, SortMode::Created, 1).session.vault_state, VaultState::Setup);
}

#[test]
fn wipe_zeroes_every_byte() {
    let mut k = vec![1u8, 2, 3, 255];
    wipe(&mut k);
    assert_eq!(k, vec![0, 0, 0, 0]);
}

#[test]
fn lock_vault_clears_key_and_session() {
    let mut s = unlocked_state();
    s.session.password_input = "secret".to_string();
    s.session.selected_note = Some(5);
    s.session.editor_title = "Title".to_string();
    s.session.editor_body = "body".to_string();
    s.session.session_decrypted = vec![(5, vec![1, 2])];
    s.session.show_graph = true;
    s.session.show_settings = true;
    lock_vault(&mut s.session);
    assert_eq!(s.session.vault_state, VaultState::Login);
    assert!(s.session.vault_key.is_none());
    assert!(s.session.password_input.is_empty());
    assert!(s.session.selected_note.is_none());
    assert!(s.session.session_decrypted.is_empty());
    assert!(s.session.editor_body.is_empty());
    assert_eq!(s.session.editor_title, "Title");
    assert!(!s.session.show_graph && !s.session.show_settings);
}

#[test]
fn lock_saves_a_dirty_note_first() {
    let mut s = unlocked_state();
    s.session.selected_note = Some(3);
    s.session.editor_title = "T".to_string();
    s.session.editor_body = "B".to_string();
    s.session.editor_dirty = true;
    s.context_menu = Some(9);
    let a = act(&mut s, Event::LockVault);
    assert_eq!(a, Action::Save(SaveRequest { note: 3, title: "T".to_string(), body: "B".to_string(), password: None }));
    assert!(!s.session.editor_dirty);
    assert!(s.session.vault_key.is_none());
    assert_eq!(s.session.vault_state, VaultState::Login);
    assert!(s.context_menu.is_none());
    let mut clean = unlocked_state();
    assert_eq!(act(&mut clean, Event::LockVault), Action::Nothing);
}

#[test]
fn submit_setup_checks_password() {
    assert_eq!(submit_setup("", ""), Err(SetupError::Empty));
    assert_eq!(submit_setup("", "x"), Err(SetupError::Empty));
    assert_eq!(submit_setup("abc", "abd"), Err(SetupError::Mismatch));
    assert_eq!(submit_setup("abc", "abc"), Ok(()));
    assert_eq!(SetupError::Empty.message(), "Password cannot be empty");
    assert_eq!(SetupError::Mismatch.message(), "Passwords do not match");
}

#[test]
fn setup_flow_through_step() {
    let mut s = new_app_state(false, SortMode::NameAZ, 1);
    assert_eq!(act(&mut s, Event::SubmitSetup), Action::Nothing);
    assert_eq!(s.session.auth_error.as_deref(), Some("Password cannot be empty"));
    act(&mut s, Event::PasswordInputChanged("pw".to_string()));
    assert!(s.session.auth_error.is_none());
    act(&mut s, Event::ConfirmPasswordInputChanged("px".to_string()));
    assert_eq!(act(&mut s, Event::SubmitSetup), Action::Nothing);
    assert_eq!(s.session.auth_error.as_deref(), Some("Passwords do not match"));
    act(&mut s, Event::ConfirmPasswordInputChanged("pw".to_string()));
    assert_eq!(act(&mut s, Event::SubmitSetup), Action::CreateVault("pw".to_string()));
    assert_eq!(s.session.vault_state, VaultState::Loading);
    assert_eq!(act(&mut s, Event::SetupDone(Ok(vec![4, 2]))), Action::LoadData);
    assert_eq!(s.session.vault_key, Some(vec![4, 2]));
    assert!(s.session.password_input.is_empty() && s.session.confirm_password_input.is_empty());
    let a = act(&mut s, Event::DataLoaded(loaded(vec![preview(2, "b", 1), preview(1, "a", 2)], vec![])));
    assert_eq!(a, Action::LoadRememberedNote);
    assert_eq!(s.session.vault_state, VaultState::Unlocked);
    assert_eq!(s.notes.iter().map(|n| n.id).collect::<Vec<_>>(), vec![1, 2]);
    assert_eq!(act(&mut s, Event::DataLoaded(loaded(vec![], vec![]))), Action::Nothing);
}

#[test]
fn setup_failure_returns_to_setup() {
    let mut s = new_app_state(false, SortMode::Modified, 1);
    s.session.vault_state = VaultState::Loading;
    assert_eq!(act(&mut s, Event::SetupDone(Err("disk full".to_string()))), Action::Nothing);
    assert_eq!(s.session.vault_state, VaultState::Setup);
    assert_eq!(s.session.auth_error.as_deref(), Some("disk full"));
}

#[test]
fn login_flow_through_step() {
    let mut s = new_app_state(true, SortMode::Modified, 1);
    assert_eq!(act(&mut s, Event::SubmitLogin), Action::Nothing);
    assert_eq!(s.session.auth_error.as_deref(), Some("Password cannot be empty"));
    act(&mut s, Event::PasswordInputChanged("pw".to_string()));
    assert_eq!(act(&mut s, Event::SubmitLogin), Action::Unlock("pw".to_string()));
    assert_eq!(s.session.vault_state, VaultState::Loading);
    assert_eq!(act(&mut s, Event::LoginDone(Err("Wrong password".to_string()))), Action::Nothing);
    assert_eq!(s.session.vault_state, VaultState::Login);
    assert_eq!(s.session.auth_error.as_deref(), Some("Wrong password"));
    assert_eq!(s.session.password_input, "pw");
    assert_eq!(act(&mut s, Event::LoginDone(Ok(vec![1]))), Action::LoadData);
    assert_eq!(s.session.vault_key, Some(vec![1]));
    assert!(s.session.password_input.is_empty());
    assert!(s.session.auth_error.is_none());
}

#[test]
fn data_loaded_keeps_or_drops_selection() {
    let mut s = unlocked_state();
    s.session.selected_note = Some(7);
    s.session.editor_title = "Seven".to_string();
    act(&mut s, Event::DataLoaded(loaded(vec![preview(1, "a", 0)], vec![(50, vec![preview(7, "s", 0)])])));
    assert_eq!(s.session.selected_note, Some(7));
    assert_eq!(s.session.editor_title, "Seven");
    s.session.editor_dirty = true;
    act(&mut s, Event::DataLoaded(loaded(vec![preview(1, "a", 0)], vec![])));
    assert!(s.session.selected_note.is_none());
    assert!(s.session.editor_title.is_empty() && s.session.editor_body.is_empty());
    assert!(!s.session.editor_dirty);
}

#[test]
fn ordinary_events_close_menus() {
    let mut s = unlocked_state();
    s.context_menu = Some(1);
    s.color_submenu_for = Some(1);
    s.toolbar_move_open = true;
    s.hovered_item = Some(4);
    assert_eq!(act(&mut s, Event::SearchQueryChanged("x".to_string())), Action::LoadData);
    assert_eq!(s.search_query, "x");
    assert!(s.context_menu.is_none() && s.color_submenu_for.is_none());
    assert!(!s.toolbar_move_open && s.hovered_item.is_none());
    s.context_menu = Some(1);
    s.hovered_item = Some(4);
    s.toolbar_move_open = true;
    assert_eq!(act(&mut s, Event::CloseContextMenu), Action::Nothing);
    assert!(s.context_menu.is_none());
    assert_eq!(s.hovered_item, Some(4));
    assert!(s.toolbar_move_open);
    s.session.show_settings = true;
    act(&mut s, Event::ToggleGraphView);
    assert!(s.session.show_graph && !s.session.show_settings);
    assert!(s.hovered_item.is_none());
}

#[test]
fn focus_switch_swaps_window_states() {
    let mut s = unlocked_state();
    s.search_query = "one".to_string();
    s.session.selected_note = Some(11);
    s.session.editor_dirty = true;
    s.session.editor_title = "Eleven".to_string();
    s.context_menu = Some(3);
    let mut other = new_app_state(true, SortMode::Modified, 2);
    other.search_query = "two".to_string();
    other.active_view = ActiveView::Favorites;
    let stored = snapshot_window_state(&mut other);
    s.other_windows.push((2, stored));
    assert_eq!(act(&mut s, Event::WindowFocused(1)), Action::Nothing);
    assert_eq!(act(&mut s, Event::WindowFocused(9)), Action::Nothing);
    assert_eq!(s.search_query, "one");
    let a = act(&mut s, Event::WindowFocused(2));
    assert_eq!(
        a,
        Action::SwitchWindow(Some(SaveRequest { note: 11, title: "Eleven".to_string(), body: String::new(), password: None }))
    );
    assert_eq!(s.focused_window, 2);
    assert_eq!(s.search_query, "two");
    assert_eq!(s.active_view, ActiveView::Favorites);
    assert!(s.session.selected_note.is_none());
    assert_eq!(s.other_windows.len(), 1);
    assert_eq!(s.other_windows[0].0, 1);
    assert_eq!(s.other_windows[0].1.search_query, "one");
    assert_eq!(s.other_windows[0].1.selected_note, Some(11));
    assert!(!s.other_windows[0].1.editor_dirty);
    assert!(s.other_windows[0].1.context_menu.is_none());
    let back = act(&mut s, Event::WindowFocused(1));
    assert_eq!(back, Action::SwitchWindow(None));
    assert_eq!(s.focused_window, 1);
    assert_eq!(s.search_query, "one");
    assert_eq!(s.session.selected_note, Some(11));
}

#[test]
fn snapshot_then_restore_gives_state_back() {
    let mut s = unlocked_state();
    s.notes = vec![preview(1, "a", 0)];
    s.search_query = "q".to_string();
    s.session.selected_note = Some(1);
    s.session.editor_body = "text".to_string();
    s.session.show_graph = true;
    s.active_view = ActiveView::Folder(8);
    let w = snapshot_window_state(&mut s);
    assert!(s.notes.is_empty() && s.search_query.is_empty());
    assert_eq!(s.active_view, ActiveView::AllNotes);
    assert!(s.session.selected_note.is_none() && !s.session.show_graph);
    restore_window_state(&mut s, w);
    assert_eq!(s.notes.len(), 1);
    assert_eq!(s.search_query, "q");
    assert_eq!(s.session.selected_note, Some(1));
    assert_eq!(s.session.editor_body, "text");
    assert!(s.session.show_graph);
    assert_eq!(s.active_view, ActiveView::Folder(8));
}

#[test]
fn renumbering_twice_equals_once() {
    let mut ls: Vec<String> = ["x", "3. a", "  7. b", "1. c", "y", "5. d"].iter().map(|s| s.to_string()).collect();
    renumber_list(&mut ls, 2);
    let once = ls.clone();
    assert_eq!(once, vec!["x", "1. a", "  2. b", "3. c", "y", "5. d"]);
    renumber_list(&mut ls, 2);
    assert_eq!(ls, once);
}

#[test]
fn password_block_content_never_reaches_snippet() {
    let a = generate_snippet("Intro\n%%pass\nuser: alice\npassword: hunter2\n%%pass\nOutro");
    let b = generate_snippet("Intro\n%%pass\nsomething else\nentirely\n%%pass\nOutro");
    assert_eq!(a, "Intro Outro");
    assert_eq!(a, b);
    let c = generate_snippet("Start\n%%pass\nnever closed secret");
    assert_eq!(c, "Start");
}

#[test]
fn sort_mode_change_sorts_and_is_stored() {
    let mut s = unlocked_state();
    s.notes = vec![preview(1, "b", 0), preview(2, "a", 0)];
    s.subfolder_notes = vec![(9, vec![preview(3, "z", 0), preview(4, "y", 0)])];
    s.sort_menu_open = true;
    s.context_menu = Some(1);
    let a = act(&mut s, Event::SetSortMode(SortMode::NameAZ));
    assert_eq!(a, Action::SaveSetting("sort_mode".to_string(), "name_az".to_string()));
    assert_eq!(s.sort_mode, SortMode::NameAZ);
    assert!(!s.sort_menu_open);
    assert_eq!(s.notes.iter().map(|n| n.id).collect::<Vec<_>>(), vec![2, 1]);
    assert_eq!(s.subfolder_notes[0].1.iter().map(|n| n.id).collect::<Vec<_>>(), vec![4, 3]);
    assert_eq!(s.context_menu, Some(1));
    assert_eq!(act(&mut s, Event::ToggleSortMenu), Action::Nothing);
    assert!(s.sort_menu_open);
}

#[test]
fn cancel_rename_step_closes_innermost_first() {
    let mut s = unlocked_state();
    s.renaming_note = Some(1);
    s.rename_buffer = "typed".to_string();
    s.dialog_open = true;
    s.note_password_input = "pw".to_string();
    s.editor_search_open = true;
    s.editor_search_index = 3;
    s.search_matches = vec![SearchMatch { line: 0, start_col: 0, end_col: 1 }];
    s.context_menu = Some(2);
    s.editor_focused = true;
    act(&mut s, Event::CancelRename);
    assert!(s.renaming_note.is_none() && s.rename_buffer.is_empty());
    assert!(s.dialog_open);
    act(&mut s, Event::CancelRename);
    assert!(!s.dialog_open && s.note_password_input.is_empty());
    assert!(s.editor_search_open);
    act(&mut s, Event::CancelRename);
    assert!(!s.editor_search_open);
    assert_eq!(s.editor_search_index, 0);
    assert!(s.search_matches.is_empty());
    assert_eq!(s.context_menu, Some(2));
    act(&mut s, Event::CancelRename);
    assert!(s.context_menu.is_none());
    assert!(s.editor_focused);
    act(&mut s, Event::CancelRename);
    assert!(!s.editor_focused);
    assert_eq!(act(&mut s, Event::CancelRename), Action::Nothing);
}

#[test]
fn settings_and_graph_pages_exclude_each_other() {
    let mut s = unlocked_state();
    act(&mut s, Event::ToggleGraphView);
    assert!(s.session.show_graph);
    act(&mut s, Event::ShowSettings);
    assert!(s.session.show_settings && !s.session.show_graph);
    act(&mut s, Event::ShowSettings);
    assert!(!s.session.show_settings);
}

#[test]
fn submenus_and_typed_fields() {
    let mut s = unlocked_state();
    s.color_submenu_for = Some(1);
    s.context_menu = Some(1);
    act(&mut s, Event::OpenMoveSubmenu(5));
    assert_eq!(s.move_submenu_for, Some(5));
    assert!(s.color_submenu_for.is_none());
    assert_eq!(s.context_menu, Some(1));
    act(&mut s, Event::OpenNewNoteSubmenu(6));
    assert_eq!(s.new_note_submenu_for, Some(6));
    assert!(s.move_submenu_for.is_none());
    act(&mut s, Event::ToggleNewNoteSubmenu(6));
    assert!(s.new_note_submenu_for.is_none());
    act(&mut s, Event::ToggleNewNoteSubmenu(7));
    assert_eq!(s.new_note_submenu_for, Some(7));
    act(&mut s, Event::RenameNoteChanged("new title".to_string()));
    assert_eq!(s.rename_buffer, "new title");
    act(&mut s, Event::RenameFolderChanged("dir".to_string()));
    assert_eq!(s.folder_rename_buffer, "dir");
    s.session.auth_error = Some("x".to_string());
    act(&mut s, Event::NotePasswordInputChanged("pw".to_string()));
    assert_eq!(s.note_password_input, "pw");
    assert!(s.session.auth_error.is_none());
    assert_eq!(s.context_menu, Some(1));
    s.dialog_open = true;
    assert_eq!(act(&mut s, Event::CloseDialog), Action::Nothing);
    assert!(!s.dialog_open && s.note_password_input.is_empty());
    assert!(s.context_menu.is_none() && s.new_note_submenu_for.is_none());
    s.hovered_item = Some(3);
    assert_eq!(act(&mut s, Event::Refresh), Action::LoadData);
    assert!(s.hovered_item.is_none());
}

#[test]
fn search_next_and_prev_move_the_cursor() {
    let mut s = unlocked_state();
    assert_eq!(act(&mut s, Event::SearchNext), Action::Nothing);
    assert_eq!(s.editor_cursor, (0, 0));
    s.search_matches = vec![
        SearchMatch { line: 0, start_col: 2, end_col: 4 },
        SearchMatch { line: 3, start_col: 1, end_col: 3 },
        SearchMatch { line: 5, start_col: 0, end_col: 2 },
    ];
    act(&mut s, Event::SearchNext);
    assert_eq!(s.editor_search_index, 1);
    assert_eq!(s.editor_cursor, (3, 1));
    assert!(s.editor_focused);
    act(&mut s, Event::SearchNext);
    act(&mut s, Event::SearchNext);
    assert_eq!(s.editor_search_index, 0);
    assert_eq!(s.editor_cursor, (0, 2));
    act(&mut s, Event::SearchPrev);
    assert_eq!(s.editor_search_index, 2);
    assert_eq!(s.editor_cursor, (5, 0));
}

#[test]
fn auto_save_tick_saves_when_due() {
    let mut s = unlocked_state();
    s.auto_save_delay = 2;
    s.session.selected_note = Some(4);
    s.session.editor_title = "t".to_string();
    s.session.editor_body = "b".to_string();
    assert_eq!(act(&mut s, Event::AutoSaveTick(Some(5_000_000_000))), Action::Nothing);
    s.session.editor_dirty = true;
    s.hovered_item = Some(1);
    assert_eq!(act(&mut s, Event::AutoSaveTick(None)), Action::Nothing);
    assert_eq!(act(&mut s, Event::AutoSaveTick(Some(1_999_999_999))), Action::Nothing);
    assert!(s.session.editor_dirty);
    let a = act(&mut s, Event::AutoSaveTick(Some(2_000_000_000)));
    assert_eq!(a, Action::Save(SaveRequest { note: 4, title: "t".to_string(), body: "b".to_string(), password: None }));
    assert!(!s.session.editor_dirty);
    assert_eq!(s.hovered_item, Some(1));
}

#[test]
fn lock_note_forgets_its_password() {
    let mut s = unlocked_state();
    assert_eq!(act(&mut s, Event::LockNote), Action::Nothing);
    s.session.selected_note = Some(2);
    s.session.session_decrypted = vec![(1, vec![1]), (2, vec![2]), (3, vec![3])];
    assert_eq!(act(&mut s, Event::LockNote), Action::LoadNote(2));
    assert_eq!(s.session.session_decrypted, vec![(1, vec![1]), (3, vec![3])]);
}

#[test]
fn saving_a_decrypted_note_carries_its_password() {
    let mut s = unlocked_state();
    s.session.selected_note = Some(8);
    s.session.editor_dirty = true;
    s.session.session_decrypted = vec![(3, vec![3]), (8, vec![4, 2])];
    let a = act(&mut s, Event::LockVault);
    assert_eq!(
        a,
        Action::Save(SaveRequest { note: 8, title: String::new(), body: String::new(), password: Some(vec![4, 2]) })
    );
    assert!(s.session.session_decrypted.is_empty());
}

fn folder(id: u128, name: &str) -> FolderEntry {
    FolderEntry { id, parent_id: None, sort_order: 0, name: name.to_string() }
}

#[test]
fn new_search_text_blurs_editor() {
    let mut s = unlocked_state();
    s.editor_focused = true;
    act(&mut s, Event::SearchQueryChanged("q".to_string()));
    assert!(!s.editor_focused);
}

#[test]
fn ordinary_event_submits_note_rename_first() {
    let mut s = unlocked_state();
    s.notes = vec![preview(1, "Old", 0), preview(2, "x", 0)];
    s.subfolder_notes = vec![(9, vec![preview(1, "Old", 0)])];
    s.session.selected_note = Some(1);
    s.session.note_title = "Old".to_string();
    s.renaming_note = Some(1);
    s.rename_buffer = "New".to_string();
    s.context_menu = Some(4);
    let (sub, a) = step(&mut s, Event::ToggleGraphView);
    assert_eq!(sub, Some(Action::RenameNote(1, "New".to_string())));
    assert_eq!(a, Action::Nothing);
    assert!(s.session.show_graph);
    assert!(s.renaming_note.is_none() && s.rename_buffer.is_empty());
    assert_eq!(s.notes[0].title, "New");
    assert_eq!(s.notes[1].title, "x");
    assert_eq!(s.subfolder_notes[0].1[0].title, "New");
    assert_eq!(s.session.editor_title, "New");
    assert_eq!(s.session.note_title, "New");
    assert!(s.context_menu.is_none());
}

#[test]
fn rename_not_submitted_while_pending_or_on_reload() {
    let mut s = unlocked_state();
    s.renaming_note = Some(1);
    s.rename_pending = 10;
    let (sub, _) = step(&mut s, Event::ToggleSidebar);
    assert!(sub.is_none());
    assert_eq!(s.renaming_note, Some(1));
    s.rename_pending = 0;
    let (sub, a) = step(&mut s, Event::Refresh);
    assert!(sub.is_none());
    assert_eq!(a, Action::LoadData);
    let (sub, _) = step(&mut s, Event::DataLoaded(loaded(vec![], vec![])));
    assert!(sub.is_none());
    assert_eq!(s.renaming_note, Some(1));
    let (sub, _) = step(&mut s, Event::RenameNoteChanged("t".to_string()));
    assert!(sub.is_none());
}

#[test]
fn rename_note_submit_with_nothing_typed_keeps_listed_title() {
    let mut s = unlocked_state();
    s.notes = vec![preview(5, "Listed", 0)];
    s.renaming_note = Some(5);
    let a = act(&mut s, Event::RenameNoteSubmit);
    assert_eq!(a, Action::RenameNote(5, "Listed".to_string()));
    assert_eq!(s.session.editor_title, "Listed");
    assert_eq!(act(&mut s, Event::RenameNoteSubmit), Action::Nothing);
}

#[test]
fn folder_rename_submitted_by_other_event() {
    let mut s = unlocked_state();
    s.folders = vec![folder(3, "old"), folder(4, "other")];
    s.renaming_folder = Some(3);
    s.folder_rename_buffer = "new".to_string();
    let (sub, _) = step(&mut s, Event::ShowSettings);
    assert_eq!(sub, Some(Action::RenameFolder(3, "new".to_string())));
    assert_eq!(s.folders[0].name, "new");
    assert_eq!(s.folders[1].name, "other");
    assert!(s.renaming_folder.is_none() && s.folder_rename_buffer.is_empty());
    s.renaming_folder = Some(4);
    s.folder_rename_buffer = "   ".to_string();
    assert_eq!(act(&mut s, Event::RenameFolderSubmit), Action::Nothing);
    assert_eq!(s.folders[1].name, "other");
    assert!(s.renaming_folder.is_none());
}

#[test]
fn data_loaded_takes_folders_and_counts() {
    let mut s = unlocked_state();
    let d = Loaded {
        folders: vec![folder(1, "a")],
        notes: vec![],
        all_count: 7,
        fav_count: 2,
        folder_counts: vec![(1, 3)],
        subfolders: vec![folder(2, "b")],
        subfolder_notes: vec![],
    };
    act(&mut s, Event::DataLoaded(d));
    assert_eq!(s.folders.len(), 1);
    assert_eq!(s.folders[0].name, "a");
    assert_eq!(s.subfolders[0].id, 2);
    assert_eq!((s.all_count, s.fav_count), (7, 2));
    assert_eq!(s.folder_counts, vec![(1, 3)]);
}

#[test]
fn lock_drops_decoded_images() {
    let mut s = unlocked_state();
    s.session.image_cache = vec![("img:1".to_string(), vec![1, 2])];
    s.session.image_sizes = vec!["img:1".to_string()];
    act(&mut s, Event::LockVault);
    assert!(s.session.image_cache.is_empty() && s.session.image_sizes.is_empty());
}

#[test]
fn toggle_sidebar_closes_menus() {
    let mut s = unlocked_state();
    s.context_menu = Some(1);
    s.toolbar_move_open = true;
    act(&mut s, Event::ToggleSidebar);
    assert!(!s.show_sidebar);
    assert!(s.context_menu.is_none() && !s.toolbar_move_open);
}

#[test]
fn delete_multi_selected_closes_dialog() {
    let mut s = unlocked_state();
    s.dialog_open = true;
    assert_eq!(act(&mut s, Event::DeleteMultiSelected), Action::Nothing);
    assert!(!s.dialog_open);
    s.dialog_open = true;
    s.selection.multi_selected.insert(1);
    s.selection.multi_selected_folders.insert(8);
    s.session.selected_note = Some(1);
    s.session.editor_dirty = true;
    let a = act(&mut s, Event::DeleteMultiSelected);
    assert_eq!(a, Action::DeleteItems(vec![1], vec![8]));
    assert!(!s.dialog_open);
    assert!(s.selection.multi_selected.is_empty() && s.selection.multi_selected_folders.is_empty());
    assert!(s.session.selected_note.is_none() && !s.session.editor_dirty);
}

#[test]
fn toggle_expand_folder_clears_picks() {
    let mut s = unlocked_state();
    s.selection.multi_selected.insert(2);
    act(&mut s, Event::ToggleExpandFolder(5));
    assert!(s.expanded_folders.contains(&5));
    assert!(s.selection.multi_selected.is_empty());
    act(&mut s, Event::ToggleExpandFolder(5));
    assert!(!s.expanded_folders.contains(&5));
}

#[test]
fn change_password_check_order() {
    assert_eq!(change_password_check("", "", ""), Err(VaultPasswordError::OldEmpty));
    assert_eq!(change_password_check("o", "", "x"), Err(VaultPasswordError::NewEmpty));
    assert_eq!(change_password_check("o", "n", "m"), Err(VaultPasswordError::Mismatch));
    assert_eq!(change_password_check("o", "n", "n"), Ok(()));
    assert_eq!(VaultPasswordError::OldEmpty.message(), "Enter your current password");
    assert_eq!(VaultPasswordError::NewEmpty.message(), "New password cannot be empty");
    assert_eq!(VaultPasswordError::Mismatch.message(), "New passwords do not match");
}

#[test]
fn change_vault_password_flow() {
    let mut s = unlocked_state();
    s.vault_old_password = "stale".to_string();
    s.session.auth_error = Some("e".to_string());
    act(&mut s, Event::OpenChangeVaultPasswordDialog);
    assert!(s.show_change_password);
    assert!(s.vault_old_password.is_empty() && s.session.auth_error.is_none());
    assert_eq!(act(&mut s, Event::SubmitChangeVaultPassword), Action::Nothing);
    assert_eq!(s.session.auth_error.as_deref(), Some("Enter your current password"));
    act(&mut s, Event::VaultOldPasswordChanged("old".to_string()));
    assert!(s.session.auth_error.is_none());
    act(&mut s, Event::VaultNewPasswordChanged("new".to_string()));
    act(&mut s, Event::VaultNewPasswordConfirmChanged("nex".to_string()));
    act(&mut s, Event::SubmitChangeVaultPassword);
    assert_eq!(s.session.auth_error.as_deref(), Some("New passwords do not match"));
    act(&mut s, Event::VaultNewPasswordConfirmChanged("new".to_string()));
    assert_eq!(
        act(&mut s, Event::SubmitChangeVaultPassword),
        Action::ChangeVaultPassword("old".to_string(), "new".to_string())
    );
    act(&mut s, Event::ChangeVaultPasswordDone(Err("Current password is incorrect".to_string())));
    assert_eq!(s.session.auth_error.as_deref(), Some("Current password is incorrect"));
    assert!(s.show_change_password);
    act(&mut s, Event::ChangeVaultPasswordDone(Ok(())));
    assert!(!s.show_change_password);
    assert!(s.vault_old_password.is_empty() && s.vault_new_password.is_empty());
    assert!(s.session.auth_error.is_none());
    act(&mut s, Event::OpenChangeVaultPasswordDialog);
    act(&mut s, Event::OpenChangeVaultPasswordDialog);
    assert!(!s.show_change_password);
}

#[test]
fn select_view_remembers_and_restores_notes() {
    let mut s = unlocked_state();
    s.session.selected_note = Some(0x11);
    s.context_menu = Some(2);
    s.session.show_graph = true;
    s.selection.multi_selected.insert(4);
    let a = act(&mut s, Event::SelectView(ActiveView::Favorites));
    assert_eq!(
        a,
        Action::SwitchView(ViewSwitch {
            renamed_note: None,
            save: None,
            remember: Some(("last_note_all".to_string(), "00000000-0000-0000-0000-000000000011".to_string())),
            open: None,
        })
    );
    assert_eq!(s.active_view, ActiveView::Favorites);
    assert!(s.context_menu.is_none() && !s.session.show_graph);
    assert!(s.selection.multi_selected.is_empty());
    assert_eq!(s.last_note_per_view, vec![(ActiveView::AllNotes, 0x11)]);
    s.session.selected_note = Some(0x22);
    let back = act(&mut s, Event::SelectView(ActiveView::AllNotes));
    match back {
        Action::SwitchView(w) => {
            assert_eq!(w.open, Some(0x11));
            assert_eq!(w.remember.unwrap().0, "last_note_fav");
        }
        _ => panic!("expected a view switch"),
    }
    assert_eq!(s.last_note_per_view, vec![(ActiveView::AllNotes, 0x11), (ActiveView::Favorites, 0x22)]);
}

#[test]
fn select_view_submits_rename_even_while_pending() {
    let mut s = unlocked_state();
    s.notes = vec![preview(1, "Old", 0)];
    s.renaming_note = Some(1);
    s.rename_buffer = "Renamed".to_string();
    s.rename_pending = 5;
    let (sub, a) = step(&mut s, Event::SelectView(ActiveView::Favorites));
    assert!(sub.is_none());
    match a {
        Action::SwitchView(w) => assert_eq!(w.renamed_note, Some((1, "Renamed".to_string()))),
        _ => panic!("expected a view switch"),
    }
    assert_eq!(s.notes[0].title, "Renamed");
    assert!(s.renaming_note.is_none());
}
