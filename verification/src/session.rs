//! The application's session as a state machine: each event changes the
//! state and names the outside work (saving, key derivation, loading) that
//! the caller performs and answers with a later event.
use vstd::prelude::*;
use std::collections::HashSet;
use crate::folders::{rename_folder, renamed, FolderEntry};
use crate::notes::{apply_sort, retitled, sorted_from, submit_note_rename, submitted_title, NotePreview};
use crate::selection::{delete_selection, lists};
use crate::tree::{toggle_expand_folder, toggled, NoteSelection};
use crate::search::{next_index, prev_index, search_next, search_prev, SearchMatch};
use crate::settings::auto_save_due;
use crate::ids::{hyphenated, uuid_text};
use crate::text::{chars_eq, chars_of, extend_chars, string_of, trim};
use crate::types::{
    escape_action, sort_mode_text, view_key, view_key_text, ActiveView, EscapeAction, SortMode,
    VaultState,
};

verus! {

/// The vault-wide part of the session, with the note open in the focused
/// window.
pub struct VaultSession {
    pub vault_state: VaultState,
    /// The key derived from the vault password while the vault is open.
    pub vault_key: Option<Vec<u8>>,
    pub password_input: String,
    pub confirm_password_input: String,
    /// The message shown under the password field.
    pub auth_error: Option<String>,
    /// Animation ticks since the key derivation started.
    pub loading_tick: u32,
    /// Note ids decrypted in this session, with the password that opened
    /// each (kept to encrypt the note again on save).
    pub session_decrypted: Vec<(u128, Vec<u8>)>,
    pub selected_note: Option<u128>,
    pub editor_title: String,
    pub editor_body: String,
    pub editor_dirty: bool,
    pub show_graph: bool,
    pub show_settings: bool,
    /// The stored title of the open note.
    pub note_title: String,
    /// The decoded images of the open note, by image id.
    pub image_cache: Vec<(String, Vec<u8>)>,
    /// The image ids of the open note whose display size is known.
    pub image_sizes: Vec<String>,
}

/// A note to be written back: its id, title and body, and the password
/// it was decrypted with in this session (it is encrypted again with it).
#[derive(Debug, Clone, PartialEq, Eq)]
pub struct SaveRequest {
    pub note: u128,
    pub title: String,
    pub body: String,
    pub password: Option<Vec<u8>>,
}

/// A save request as plain values: note, title, body, session password.
pub type SaveView = (u128, Seq<char>, Seq<char>, Option<Seq<u8>>);

/// What an optional save request holds, as plain values.
pub open spec fn request_view(r: Option<SaveRequest>) -> Option<SaveView> {
    match r {
        Some(q) => Some((q.note, q.title@, q.body@, match q.password {
            Some(p) => Some(p@),
            None => None,
        })),
        None => None,
    }
}

/// The password note `id` was decrypted with in this session, if it was:
/// the first one stored for it.
pub open spec fn decrypted_password(list: Seq<(u128, Vec<u8>)>, id: u128) -> Option<Seq<u8>>
    decreases list.len(),
{
    if list.len() == 0 {
        None
    } else if list[0].0 == id {
        Some(list[0].1@)
    } else {
        decrypted_password(list.drop_first(), id)
    }
}

/// What an edit in progress asks to save: the open note with the editor's
/// title and body (and its session password), when there are unsaved
/// changes.
pub open spec fn pending_save(s: VaultSession) -> Option<SaveView> {
    if s.editor_dirty && s.selected_note is Some {
        let id = s.selected_note->0;
        Some((id, s.editor_title@, s.editor_body@, decrypted_password(s.session_decrypted@, id)))
    } else {
        None
    }
}

/// The session password of a note, copied.
fn find_decrypted_password(list: &Vec<(u128, Vec<u8>)>, id: u128) -> (r: Option<Vec<u8>>)
    ensures
        match r {
            Some(p) => decrypted_password(list@, id) == Some(p@),
            None => decrypted_password(list@, id) is None,
        },
{
    let mut k: usize = 0;
    assert(list@.skip(0) =~= list@);
    while k < list.len()
        invariant
            k <= list.len(),
            decrypted_password(list@, id) == decrypted_password(list@.skip(k as int), id),
        decreases list.len() - k,
    {
        let ghost rest = list@.skip(k as int);
        assert(rest[0] == list@[k as int]);
        assert(rest.drop_first() =~= list@.skip(k + 1));
        if list[k].0 == id {
            return Some(list[k].1.clone());
        }
        k = k + 1;
    }
    None
}

/// The session after a pending save was handed out: no longer dirty.
pub open spec fn after_save(s: VaultSession) -> VaultSession {
    if pending_save(s) is Some {
        VaultSession { editor_dirty: false, ..s }
    } else {
        s
    }
}

/// Saves the open note if it has unsaved changes: hands out what to write
/// and marks the editor clean.
pub fn take_pending_save(s: &mut VaultSession) -> (r: Option<SaveRequest>)
    ensures
        request_view(r) == pending_save(*old(s)),
        *final(s) == after_save(*old(s)),
{
    if s.editor_dirty {
        match s.selected_note {
            Some(id) => {
                let title = s.editor_title.clone();
                let body = s.editor_body.clone();
                let password = find_decrypted_password(&s.session_decrypted, id);
                s.editor_dirty = false;
                Some(SaveRequest { note: id, title, body, password })
            },
            None => None,
        }
    } else {
        None
    }
}

/// Overwrites every byte of a key with zero.
pub fn wipe(key: &mut Vec<u8>)
    ensures
        final(key)@.len() == old(key)@.len(),
        forall|i: int| 0 <= i < final(key)@.len() ==> final(key)@[i] == 0u8,
{
    let mut i: usize = 0;
    while i < key.len()
        invariant
            i <= key.len(),
            key@.len() == old(key)@.len(),
            forall|j: int| 0 <= j < i ==> key@[j] == 0u8,
        decreases key.len() - i,
    {
        key.set(i, 0u8);
        i = i + 1;
    }
}

/// The session once the vault is locked: the key, the typed password, the
/// passwords of decrypted notes, the open note and its decoded images are
/// gone, the graph and settings pages closed; nothing else changes.
pub open spec fn locked(old: VaultSession, new: VaultSession) -> bool {
    &&& new == VaultSession {
        vault_state: VaultState::Login,
        vault_key: None,
        password_input: new.password_input,
        session_decrypted: new.session_decrypted,
        selected_note: None,
        editor_body: new.editor_body,
        note_title: new.note_title,
        image_cache: new.image_cache,
        image_sizes: new.image_sizes,
        show_graph: false,
        show_settings: false,
        ..old
    }
    &&& new.password_input@.len() == 0
    &&& new.session_decrypted@.len() == 0
    &&& new.editor_body@.len() == 0
    &&& new.note_title@.len() == 0
    &&& new.image_cache@.len() == 0
    &&& new.image_sizes@.len() == 0
}

/// Locks the vault: back to the login screen, with the key overwritten
/// with zeros before it is dropped.
pub fn lock_vault(s: &mut VaultSession)
    ensures
        locked(*old(s), *final(s)),
        final(s).vault_key is None,
        final(s).vault_state == VaultState::Login,
        final(s).session_decrypted@.len() == 0,
        final(s).password_input@.len() == 0,
        final(s).selected_note is None,
        final(s).image_cache@.len() == 0,
        final(s).image_sizes@.len() == 0,
{
    s.vault_state = VaultState::Login;
    let key = s.vault_key.take();
    if let Some(mut k) = key {
        wipe(&mut k);
    }
    s.password_input = String::new();
    s.selected_note = None;
    s.note_title = String::new();
    s.editor_body = String::new();
    s.image_cache.clear();
    s.image_sizes.clear();
    s.show_graph = false;
    s.show_settings = false;
    s.session_decrypted.clear();
}

/// Why the first vault password is refused.
#[derive(Debug, Clone, Copy, PartialEq, Eq, Structural)]
pub enum SetupError {
    /// No password was typed.
    Empty,
    /// The confirmation differs from the password.
    Mismatch,
}

/// The message a refusal shows.
pub open spec fn setup_message(e: SetupError) -> Seq<char> {
    match e {
        SetupError::Empty => "Password cannot be empty"@,
        SetupError::Mismatch => "Passwords do not match"@,
    }
}

impl SetupError {
    /// The message shown under the password field.
    pub fn message(&self) -> (r: String)
        ensures
            r@ == setup_message(*self),
    {
        match self {
            SetupError::Empty => "Password cannot be empty".to_owned(),
            SetupError::Mismatch => "Passwords do not match".to_owned(),
        }
    }
}

/// Checks the first vault password against its confirmation.
pub fn submit_setup(password: &str, confirm: &str) -> (r: Result<(), SetupError>)
    ensures
        password@.len() == 0 ==> r == Err::<(), SetupError>(SetupError::Empty),
        password@.len() > 0 && password@ != confirm@ ==> r == Err::<(), SetupError>(
            SetupError::Mismatch,
        ),
        password@.len() > 0 && password@ == confirm@ ==> r is Ok,
{
    let p = chars_of(password);
    if p.len() == 0 {
        return Err(SetupError::Empty);
    }
    let c = chars_of(confirm);
    if !chars_eq(&p, &c) {
        return Err(SetupError::Mismatch);
    }
    Ok(())
}

/// Why a new vault password is refused.
#[derive(Debug, Clone, Copy, PartialEq, Eq, Structural)]
pub enum VaultPasswordError {
    /// The current password was not typed.
    OldEmpty,
    /// No new password was typed.
    NewEmpty,
    /// The confirmation differs from the new password.
    Mismatch,
}

/// The message a refusal shows.
pub open spec fn vault_password_message(e: VaultPasswordError) -> Seq<char> {
    match e {
        VaultPasswordError::OldEmpty => "Enter your current password"@,
        VaultPasswordError::NewEmpty => "New password cannot be empty"@,
        VaultPasswordError::Mismatch => "New passwords do not match"@,
    }
}

impl VaultPasswordError {
    /// The message shown in the dialog.
    pub fn message(&self) -> (r: String)
        ensures
            r@ == vault_password_message(*self),
    {
        match self {
            VaultPasswordError::OldEmpty => "Enter your current password".to_owned(),
            VaultPasswordError::NewEmpty => "New password cannot be empty".to_owned(),
            VaultPasswordError::Mismatch => "New passwords do not match".to_owned(),
        }
    }
}

/// The refusal of a vault password change, if any: the current password
/// must be typed, then a new one, then the same again.
pub open spec fn vault_password_refusal(old: Seq<char>, new: Seq<char>, confirm: Seq<char>) -> Option<VaultPasswordError> {
    if old.len() == 0 {
        Some(VaultPasswordError::OldEmpty)
    } else if new.len() == 0 {
        Some(VaultPasswordError::NewEmpty)
    } else if new != confirm {
        Some(VaultPasswordError::Mismatch)
    } else {
        None
    }
}

/// Checks what was typed to change the vault password.
pub fn change_password_check(old: &str, new: &str, confirm: &str) -> (r: Result<(), VaultPasswordError>)
    ensures
        match vault_password_refusal(old@, new@, confirm@) {
            Some(e) => r == Err::<(), VaultPasswordError>(e),
            None => r is Ok,
        },
{
    let o = chars_of(old);
    if o.len() == 0 {
        return Err(VaultPasswordError::OldEmpty);
    }
    let n = chars_of(new);
    if n.len() == 0 {
        return Err(VaultPasswordError::NewEmpty);
    }
    let c = chars_of(confirm);
    if !chars_eq(&n, &c) {
        return Err(VaultPasswordError::Mismatch);
    }
    Ok(())
}

/// The state of the application: the session and the focused window's
/// lists, view and menus, with the windows that are open but not focused.
pub struct AppState {
    pub session: VaultSession,
    pub notes: Vec<NotePreview>,
    pub subfolder_notes: Vec<(u128, Vec<NotePreview>)>,
    pub sort_mode: SortMode,
    /// Seconds after the last edit before an automatic save.
    pub auto_save_delay: u32,
    pub active_view: ActiveView,
    pub search_query: String,
    /// The item whose context menu is open.
    pub context_menu: Option<u128>,
    pub color_submenu_for: Option<u128>,
    pub move_submenu_for: Option<u128>,
    pub new_note_submenu_for: Option<u128>,
    pub toolbar_move_open: bool,
    pub potential_drag: Option<u128>,
    pub hovered_item: Option<u128>,
    pub dragging: Option<u128>,
    /// Whether the notes remembered per view were looked up once.
    pub last_notes_loaded: bool,
    pub sort_menu_open: bool,
    /// The note whose title is being edited in the list, and the typed text.
    pub renaming_note: Option<u128>,
    pub rename_buffer: String,
    /// The folder whose name is being edited, and the typed text.
    pub renaming_folder: Option<u128>,
    pub folder_rename_buffer: String,
    /// Whether a dialog is open, and the note password typed into it.
    pub dialog_open: bool,
    pub note_password_input: String,
    /// The find bar of the editor and its current match.
    pub editor_search_open: bool,
    pub editor_search_index: usize,
    pub editor_focused: bool,
    /// The matches of the find bar's text in the open note.
    pub search_matches: Vec<SearchMatch>,
    /// The editor's cursor: line and character column.
    pub editor_cursor: (usize, usize),
    /// The root folders and the subfolders shown, with the note counts.
    pub folders: Vec<FolderEntry>,
    pub subfolders: Vec<FolderEntry>,
    pub all_count: usize,
    pub fav_count: usize,
    pub folder_counts: Vec<(u128, usize)>,
    pub show_sidebar: bool,
    /// The dialog that changes the vault password, and what is typed in it.
    pub show_change_password: bool,
    pub vault_old_password: String,
    pub vault_new_password: String,
    pub vault_new_password_confirm: String,
    /// Animation ticks left before a started rename takes the focus; while
    /// it runs, other events do not submit the rename.
    pub rename_pending: u8,
    /// The notes and folders picked in the sidebar.
    pub selection: NoteSelection,
    pub expanded_folders: HashSet<u128>,
    /// The note last open in each view.
    pub last_note_per_view: Vec<(ActiveView, u128)>,
    pub focused_window: u64,
    /// The state of every other open window, by window id.
    pub other_windows: Vec<(u64, WindowState)>,
}

/// What a window keeps of its own while another window has the focus.
pub struct WindowState {
    pub notes: Vec<NotePreview>,
    pub subfolder_notes: Vec<(u128, Vec<NotePreview>)>,
    pub selected_note: Option<u128>,
    pub active_view: ActiveView,
    pub search_query: String,
    pub editor_title: String,
    pub editor_body: String,
    pub editor_dirty: bool,
    pub context_menu: Option<u128>,
    pub color_submenu_for: Option<u128>,
    pub move_submenu_for: Option<u128>,
    pub new_note_submenu_for: Option<u128>,
    pub toolbar_move_open: bool,
    pub potential_drag: Option<u128>,
    pub hovered_item: Option<u128>,
    pub dragging: Option<u128>,
    pub last_notes_loaded: bool,
    pub show_graph: bool,
    pub show_settings: bool,
    pub sort_menu_open: bool,
    pub renaming_note: Option<u128>,
    pub rename_buffer: String,
    pub renaming_folder: Option<u128>,
    pub folder_rename_buffer: String,
    pub dialog_open: bool,
    pub note_password_input: String,
    pub editor_search_open: bool,
    pub editor_search_index: usize,
    pub editor_focused: bool,
    pub search_matches: Vec<SearchMatch>,
    pub editor_cursor: (usize, usize),
    pub subfolders: Vec<FolderEntry>,
    pub rename_pending: u8,
    pub selection: NoteSelection,
    pub expanded_folders: HashSet<u128>,
    pub last_note_per_view: Vec<(ActiveView, u128)>,
    pub note_title: String,
    pub image_cache: Vec<(String, Vec<u8>)>,
    pub image_sizes: Vec<String>,
}

/// Whether a window id is among the stored windows.
pub open spec fn has_window(ws: Seq<(u64, WindowState)>, id: u64) -> bool {
    exists|k: int| 0 <= k < ws.len() && (#[trigger] ws[k]).0 == id
}

/// The state is well formed: every stored window has its own id, and none
/// is the focused one.
pub open spec fn app_wf(s: AppState) -> bool {
    &&& forall|i: int, j: int|
        0 <= i < j < s.other_windows@.len() ==> (#[trigger] s.other_windows@[i]).0
            != (#[trigger] s.other_windows@[j]).0
    &&& !has_window(s.other_windows@, s.focused_window)
}

/// The focused window's own part of the state.
pub open spec fn window_of(s: AppState) -> WindowState {
    WindowState {
        notes: s.notes,
        subfolder_notes: s.subfolder_notes,
        selected_note: s.session.selected_note,
        active_view: s.active_view,
        search_query: s.search_query,
        editor_title: s.session.editor_title,
        editor_body: s.session.editor_body,
        editor_dirty: s.session.editor_dirty,
        context_menu: s.context_menu,
        color_submenu_for: s.color_submenu_for,
        move_submenu_for: s.move_submenu_for,
        new_note_submenu_for: s.new_note_submenu_for,
        toolbar_move_open: s.toolbar_move_open,
        potential_drag: s.potential_drag,
        hovered_item: s.hovered_item,
        dragging: s.dragging,
        last_notes_loaded: s.last_notes_loaded,
        show_graph: s.session.show_graph,
        show_settings: s.session.show_settings,
        sort_menu_open: s.sort_menu_open,
        renaming_note: s.renaming_note,
        rename_buffer: s.rename_buffer,
        renaming_folder: s.renaming_folder,
        folder_rename_buffer: s.folder_rename_buffer,
        dialog_open: s.dialog_open,
        note_password_input: s.note_password_input,
        editor_search_open: s.editor_search_open,
        editor_search_index: s.editor_search_index,
        editor_focused: s.editor_focused,
        search_matches: s.search_matches,
        editor_cursor: s.editor_cursor,
        subfolders: s.subfolders,
        rename_pending: s.rename_pending,
        selection: s.selection,
        expanded_folders: s.expanded_folders,
        last_note_per_view: s.last_note_per_view,
        note_title: s.session.note_title,
        image_cache: s.session.image_cache,
        image_sizes: s.session.image_sizes,
    }
}

/// The state with the focused window's own part replaced by `w`.
pub open spec fn with_window(s: AppState, w: WindowState) -> AppState {
    AppState {
        session: VaultSession {
            selected_note: w.selected_note,
            editor_title: w.editor_title,
            editor_body: w.editor_body,
            editor_dirty: w.editor_dirty,
            show_graph: w.show_graph,
            show_settings: w.show_settings,
            note_title: w.note_title,
            image_cache: w.image_cache,
            image_sizes: w.image_sizes,
            ..s.session
        },
        notes: w.notes,
        subfolder_notes: w.subfolder_notes,
        active_view: w.active_view,
        search_query: w.search_query,
        context_menu: w.context_menu,
        color_submenu_for: w.color_submenu_for,
        move_submenu_for: w.move_submenu_for,
        new_note_submenu_for: w.new_note_submenu_for,
        toolbar_move_open: w.toolbar_move_open,
        potential_drag: w.potential_drag,
        hovered_item: w.hovered_item,
        dragging: w.dragging,
        last_notes_loaded: w.last_notes_loaded,
        sort_menu_open: w.sort_menu_open,
        renaming_note: w.renaming_note,
        rename_buffer: w.rename_buffer,
        renaming_folder: w.renaming_folder,
        folder_rename_buffer: w.folder_rename_buffer,
        dialog_open: w.dialog_open,
        note_password_input: w.note_password_input,
        editor_search_open: w.editor_search_open,
        editor_search_index: w.editor_search_index,
        editor_focused: w.editor_focused,
        search_matches: w.search_matches,
        editor_cursor: w.editor_cursor,
        subfolders: w.subfolders,
        rename_pending: w.rename_pending,
        selection: w.selection,
        expanded_folders: w.expanded_folders,
        last_note_per_view: w.last_note_per_view,
        ..s
    }
}

/// A window state as a new window starts: every list and text empty, the
/// all-notes view, nothing open or selected.
pub open spec fn blank_window(w: WindowState) -> bool {
    &&& w.notes@.len() == 0
    &&& w.subfolder_notes@.len() == 0
    &&& w.selected_note is None
    &&& w.active_view == ActiveView::AllNotes
    &&& w.search_query@.len() == 0
    &&& w.editor_title@.len() == 0
    &&& w.editor_body@.len() == 0
    &&& !w.editor_dirty
    &&& w.context_menu is None
    &&& w.color_submenu_for is None
    &&& w.move_submenu_for is None
    &&& w.new_note_submenu_for is None
    &&& !w.toolbar_move_open
    &&& w.potential_drag is None
    &&& w.hovered_item is None
    &&& w.dragging is None
    &&& !w.last_notes_loaded
    &&& !w.show_graph
    &&& !w.show_settings
    &&& !w.sort_menu_open
    &&& w.renaming_note is None
    &&& w.rename_buffer@.len() == 0
    &&& w.renaming_folder is None
    &&& w.folder_rename_buffer@.len() == 0
    &&& !w.dialog_open
    &&& w.note_password_input@.len() == 0
    &&& !w.editor_search_open
    &&& w.editor_search_index == 0
    &&& !w.editor_focused
    &&& w.search_matches@.len() == 0
    &&& w.editor_cursor == (0usize, 0usize)
    &&& w.subfolders@.len() == 0
    &&& w.rename_pending == 0
    &&& w.selection.multi_selected@ == Set::<u128>::empty()
    &&& w.selection.multi_selected_folders@ == Set::<u128>::empty()
    &&& w.selection.last_clicked_note is None
    &&& w.expanded_folders@ == Set::<u128>::empty()
    &&& w.last_note_per_view@.len() == 0
    &&& w.note_title@.len() == 0
    &&& w.image_cache@.len() == 0
    &&& w.image_sizes@.len() == 0
}

/// Taking a window's part out of the state and putting it back gives the
/// state that was there; putting a part in and taking it out gives that
/// part.
pub proof fn law_snapshot_restore(s: AppState, w: WindowState)
    ensures
        with_window(with_window(s, w), window_of(s)) == s,
        window_of(with_window(s, w)) == w,
{
}

/// Takes the focused window's own part out of the state, leaving it as a
/// new window starts.
pub fn snapshot_window_state(s: &mut AppState) -> (r: WindowState)
    ensures
        r == window_of(*old(s)),
        *final(s) == with_window(*old(s), window_of(*final(s))),
        blank_window(window_of(*final(s))),
{
    let mut notes: Vec<NotePreview> = Vec::new();
    std::mem::swap(&mut notes, &mut s.notes);
    let mut subfolder_notes: Vec<(u128, Vec<NotePreview>)> = Vec::new();
    std::mem::swap(&mut subfolder_notes, &mut s.subfolder_notes);
    let selected_note = s.session.selected_note.take();
    let mut active_view = ActiveView::AllNotes;
    std::mem::swap(&mut active_view, &mut s.active_view);
    let mut search_query = String::new();
    std::mem::swap(&mut search_query, &mut s.search_query);
    let mut editor_title = String::new();
    std::mem::swap(&mut editor_title, &mut s.session.editor_title);
    let mut editor_body = String::new();
    std::mem::swap(&mut editor_body, &mut s.session.editor_body);
    let editor_dirty = s.session.editor_dirty;
    s.session.editor_dirty = false;
    let context_menu = s.context_menu.take();
    let color_submenu_for = s.color_submenu_for.take();
    let move_submenu_for = s.move_submenu_for.take();
    let new_note_submenu_for = s.new_note_submenu_for.take();
    let toolbar_move_open = s.toolbar_move_open;
    s.toolbar_move_open = false;
    let potential_drag = s.potential_drag.take();
    let hovered_item = s.hovered_item.take();
    let dragging = s.dragging.take();
    let last_notes_loaded = s.last_notes_loaded;
    s.last_notes_loaded = false;
    let show_graph = s.session.show_graph;
    s.session.show_graph = false;
    let show_settings = s.session.show_settings;
    s.session.show_settings = false;
    let sort_menu_open = s.sort_menu_open;
    s.sort_menu_open = false;
    let renaming_note = s.renaming_note.take();
    let mut rename_buffer = String::new();
    std::mem::swap(&mut rename_buffer, &mut s.rename_buffer);
    let renaming_folder = s.renaming_folder.take();
    let mut folder_rename_buffer = String::new();
    std::mem::swap(&mut folder_rename_buffer, &mut s.folder_rename_buffer);
    let dialog_open = s.dialog_open;
    s.dialog_open = false;
    let mut note_password_input = String::new();
    std::mem::swap(&mut note_password_input, &mut s.note_password_input);
    let editor_search_open = s.editor_search_open;
    s.editor_search_open = false;
    let editor_search_index = s.editor_search_index;
    s.editor_search_index = 0;
    let editor_focused = s.editor_focused;
    s.editor_focused = false;
    let mut search_matches: Vec<SearchMatch> = Vec::new();
    std::mem::swap(&mut search_matches, &mut s.search_matches);
    let editor_cursor = s.editor_cursor;
    s.editor_cursor = (0, 0);
    let mut subfolders: Vec<FolderEntry> = Vec::new();
    std::mem::swap(&mut subfolders, &mut s.subfolders);
    let rename_pending = s.rename_pending;
    s.rename_pending = 0;
    let mut selection = NoteSelection {
        multi_selected: HashSet::new(),
        multi_selected_folders: HashSet::new(),
        last_clicked_note: None,
    };
    std::mem::swap(&mut selection, &mut s.selection);
    let mut expanded_folders: HashSet<u128> = HashSet::new();
    std::mem::swap(&mut expanded_folders, &mut s.expanded_folders);
    let mut last_note_per_view: Vec<(ActiveView, u128)> = Vec::new();
    std::mem::swap(&mut last_note_per_view, &mut s.last_note_per_view);
    let mut note_title = String::new();
    std::mem::swap(&mut note_title, &mut s.session.note_title);
    let mut image_cache: Vec<(String, Vec<u8>)> = Vec::new();
    std::mem::swap(&mut image_cache, &mut s.session.image_cache);
    let mut image_sizes: Vec<String> = Vec::new();
    std::mem::swap(&mut image_sizes, &mut s.session.image_sizes);
    WindowState {
        notes,
        subfolder_notes,
        selected_note,
        active_view,
        search_query,
        editor_title,
        editor_body,
        editor_dirty,
        context_menu,
        color_submenu_for,
        move_submenu_for,
        new_note_submenu_for,
        toolbar_move_open,
        potential_drag,
        hovered_item,
        dragging,
        last_notes_loaded,
        show_graph,
        show_settings,
        sort_menu_open,
        renaming_note,
        rename_buffer,
        renaming_folder,
        folder_rename_buffer,
        dialog_open,
        note_password_input,
        editor_search_open,
        editor_search_index,
        editor_focused,
        search_matches,
        editor_cursor,
        subfolders,
        rename_pending,
        selection,
        expanded_folders,
        last_note_per_view,
        note_title,
        image_cache,
        image_sizes,
    }
}

/// Puts a window's own part into the state.
pub fn restore_window_state(s: &mut AppState, w: WindowState)
    ensures
        *final(s) == with_window(*old(s), w),
{
    s.notes = w.notes;
    s.subfolder_notes = w.subfolder_notes;
    s.session.selected_note = w.selected_note;
    s.active_view = w.active_view;
    s.search_query = w.search_query;
    s.session.editor_title = w.editor_title;
    s.session.editor_body = w.editor_body;
    s.session.editor_dirty = w.editor_dirty;
    s.context_menu = w.context_menu;
    s.color_submenu_for = w.color_submenu_for;
    s.move_submenu_for = w.move_submenu_for;
    s.new_note_submenu_for = w.new_note_submenu_for;
    s.toolbar_move_open = w.toolbar_move_open;
    s.potential_drag = w.potential_drag;
    s.hovered_item = w.hovered_item;
    s.dragging = w.dragging;
    s.last_notes_loaded = w.last_notes_loaded;
    s.session.show_graph = w.show_graph;
    s.session.show_settings = w.show_settings;
    s.sort_menu_open = w.sort_menu_open;
    s.renaming_note = w.renaming_note;
    s.rename_buffer = w.rename_buffer;
    s.renaming_folder = w.renaming_folder;
    s.folder_rename_buffer = w.folder_rename_buffer;
    s.dialog_open = w.dialog_open;
    s.note_password_input = w.note_password_input;
    s.editor_search_open = w.editor_search_open;
    s.editor_search_index = w.editor_search_index;
    s.editor_focused = w.editor_focused;
    s.search_matches = w.search_matches;
    s.editor_cursor = w.editor_cursor;
    s.subfolders = w.subfolders;
    s.rename_pending = w.rename_pending;
    s.selection = w.selection;
    s.expanded_folders = w.expanded_folders;
    s.last_note_per_view = w.last_note_per_view;
    s.session.note_title = w.note_title;
    s.session.image_cache = w.image_cache;
    s.session.image_sizes = w.image_sizes;
}

/// What the caller is told to do after an event; each answer comes back as
/// a later event.
#[derive(Debug, Clone, PartialEq, Eq)]
pub enum Action {
    Nothing,
    /// Write the note back.
    Save(SaveRequest),
    /// Make a new vault for this password (fresh salt, derived key, check
    /// value); answered by `SetupDone`.
    CreateVault(String),
    /// Check this password against the vault and derive its key; answered
    /// by `LoginDone`.
    Unlock(String),
    /// Load the folders and note lists for the focused window; answered by
    /// `DataLoaded`.
    LoadData,
    /// Look up the note last open in each view and open the one of the
    /// current view.
    LoadRememberedNote,
    /// Save the note of the window that lost the focus (if asked), then load
    /// the lists of the window that got it.
    SwitchWindow(Option<SaveRequest>),
    /// Store a setting: its key and value.
    SaveSetting(String, String),
    /// Read a note back from the store and open it.
    LoadNote(u128),
    /// Store a note's new title, then load the lists again.
    RenameNote(u128, String),
    /// Store a folder's new name, then load the lists again.
    RenameFolder(u128, String),
    /// Delete these notes and folders, then load the lists again.
    DeleteItems(Vec<u128>, Vec<u128>),
    /// Check the current vault password and set the new one (fresh salt
    /// and key); answered by `ChangeVaultPasswordDone`.
    ChangeVaultPassword(String, String),
    /// Switch to another view (see `ViewSwitch`).
    SwitchView(ViewSwitch),
}

/// The outside work of switching views, in order: store the title of a
/// note whose rename the switch ended, save the open note, store which note
/// was open in the view left (setting key and note id), load the lists of
/// the new view, and open the note last open there.
#[derive(Debug, Clone, PartialEq, Eq)]
pub struct ViewSwitch {
    pub renamed_note: Option<(u128, String)>,
    pub save: Option<SaveRequest>,
    pub remember: Option<(String, String)>,
    pub open: Option<u128>,
}

/// Freshly loaded lists: the root folders, the notes of the current view,
/// the note counts of all notes, of favourites and per folder, the
/// subfolders shown and their notes.
pub struct Loaded {
    pub folders: Vec<FolderEntry>,
    pub notes: Vec<NotePreview>,
    pub all_count: usize,
    pub fav_count: usize,
    pub folder_counts: Vec<(u128, usize)>,
    pub subfolders: Vec<FolderEntry>,
    pub subfolder_notes: Vec<(u128, Vec<NotePreview>)>,
}

/// What happens to the application.

pub enum Event {
    LockVault,
    PasswordInputChanged(String),
    ConfirmPasswordInputChanged(String),
    SubmitSetup,
    /// The new vault's key, or why it could not be made.
    SetupDone(Result<Vec<u8>, String>),
    SubmitLogin,
    /// The vault's key, or why the password was refused.
    LoginDone(Result<Vec<u8>, String>),
    /// The note list and the note lists of the subfolders, freshly loaded.
    DataLoaded(Loaded),
    SearchQueryChanged(String),
    ToggleGraphView,
    ShowSettings,
    CloseContextMenu,
    SetSortMode(SortMode),
    ToggleSortMenu,
    /// Escape: closes the innermost thing open.
    CancelRename,
    /// The move submenu opens for an item.
    OpenMoveSubmenu(u128),
    /// The new-note submenu opens for a folder.
    OpenNewNoteSubmenu(u128),
    ToggleNewNoteSubmenu(u128),
    RenameNoteChanged(String),
    RenameFolderChanged(String),
    NotePasswordInputChanged(String),
    CloseDialog,
    Refresh,
    /// The typed note title is submitted.
    RenameNoteSubmit,
    /// The typed folder name is submitted.
    RenameFolderSubmit,
    ToggleSidebar,
    /// The picked notes and folders are deleted.
    DeleteMultiSelected,
    /// A folder of the tree is opened or closed.
    ToggleExpandFolder(u128),
    /// Another view is chosen: all notes, favourites or a folder.
    SelectView(ActiveView),
    OpenChangeVaultPasswordDialog,
    VaultOldPasswordChanged(String),
    VaultNewPasswordChanged(String),
    VaultNewPasswordConfirmChanged(String),
    SubmitChangeVaultPassword,
    /// The vault password was changed, or why not.
    ChangeVaultPasswordDone(Result<(), String>),
    /// The find bar's next match.
    SearchNext,
    /// The find bar's previous match.
    SearchPrev,
    /// The automatic-save timer fired; the time since the last edit, in
    /// nanoseconds, if an edit was recorded.
    AutoSaveTick(Option<u128>),
    /// The open note is locked again: its password is forgotten and it is
    /// read back from the store.
    LockNote,
    /// A window got the focus.
    WindowFocused(u64),
}

/// Whether an event closes the open menus before it is handled: all but
/// the menu events themselves and window focus changes.
pub open spec fn closes_menus(e: Event) -> bool {
    !(e is CloseContextMenu || e is WindowFocused || e is SetSortMode || e is ToggleSortMenu
        || e is CancelRename || e is OpenMoveSubmenu || e is OpenNewNoteSubmenu
        || e is ToggleNewNoteSubmenu || e is RenameNoteChanged || e is RenameFolderChanged
        || e is NotePasswordInputChanged || e is AutoSaveTick || e is RenameNoteSubmit
        || e is RenameFolderSubmit)
}

/// The find bar moves to match `to` (if there is one): it becomes the
/// current match and the cursor goes to its start, in a focused editor.
pub open spec fn match_step(old: AppState, new: AppState, to: Option<int>, a: Action) -> bool {
    &&& a is Nothing
    &&& match to {
        Some(i) => new == AppState {
            editor_search_index: i as usize,
            editor_cursor: (
                old.search_matches@[i].line,
                old.search_matches@[i].start_col,
            ),
            editor_focused: true,
            ..old
        },
        None => new == old,
    }
}

/// The state with context menus, submenus, hover and a pending drag gone.
pub open spec fn menus_cleared(s: AppState) -> AppState {
    AppState {
        context_menu: None,
        color_submenu_for: None,
        move_submenu_for: None,
        new_note_submenu_for: None,
        toolbar_move_open: false,
        potential_drag: None,
        hovered_item: None,
        ..s
    }
}

/// The state with another session.
pub open spec fn with_session(s: AppState, v: VaultSession) -> AppState {
    AppState { session: v, ..s }
}

/// Whether a note id is in the note list or in a subfolder's list.
pub open spec fn listed(notes: Seq<NotePreview>, subs: Seq<(u128, Vec<NotePreview>)>, id: u128) -> bool {
    (exists|k: int| 0 <= k < notes.len() && (#[trigger] notes[k]).id == id) || (exists|j: int, k: int|
        0 <= j < subs.len() && 0 <= k < subs[j].1@.len() && (#[trigger] subs[j].1@[k]).id == id)
}

/// An action that saves what `p` asks for, or does nothing when it asks
/// for nothing.
pub open spec fn saves(a: Action, p: Option<SaveView>) -> bool {
    match p {
        Some(q) => a matches Action::Save(r) && request_view(Some(r)) == Some(q),
        None => a is Nothing,
    }
}

/// Locking: the open note is saved if it has changes, then the session is
/// locked.
pub open spec fn lock_step(m: AppState, new: AppState, a: Action) -> bool {
    &&& new == with_session(m, new.session)
    &&& locked(after_save(m.session), new.session)
    &&& saves(a, pending_save(m.session))
}

/// A refused submission: only the message changes.
pub open spec fn refused(m: AppState, new: AppState, msg: Seq<char>, a: Action) -> bool {
    &&& new == with_session(m, VaultSession { auth_error: new.session.auth_error, ..m.session })
    &&& new.session.auth_error matches Some(e) && e@ == msg
    &&& a is Nothing
}

/// Submitting the first password: refused when empty or unconfirmed, else
/// the key derivation starts.
pub open spec fn setup_step(m: AppState, new: AppState, a: Action) -> bool {
    let p = m.session.password_input@;
    if p.len() == 0 {
        refused(m, new, setup_message(SetupError::Empty), a)
    } else if p != m.session.confirm_password_input@ {
        refused(m, new, setup_message(SetupError::Mismatch), a)
    } else {
        &&& new == with_session(
            m,
            VaultSession { vault_state: VaultState::Loading, loading_tick: 0, ..m.session },
        )
        &&& a matches Action::CreateVault(pw) && pw@ == p
    }
}

/// Submitting the password at login: refused when empty, else the check
/// starts.
pub open spec fn login_step(m: AppState, new: AppState, a: Action) -> bool {
    let p = m.session.password_input@;
    if p.len() == 0 {
        refused(m, new, setup_message(SetupError::Empty), a)
    } else {
        &&& new == with_session(
            m,
            VaultSession { vault_state: VaultState::Loading, loading_tick: 0, ..m.session },
        )
        &&& a matches Action::Unlock(pw) && pw@ == p
    }
}

/// A key arrived: it is kept, the typed passwords are cleared, and the
/// lists are loaded.
pub open spec fn key_arrived(m: AppState, new: AppState, key: Vec<u8>, clears_confirm: bool, a: Action) -> bool {
    &&& new == with_session(
        m,
        VaultSession {
            vault_state: VaultState::Loading,
            vault_key: Some(key),
            password_input: new.session.password_input,
            confirm_password_input: if clears_confirm {
                new.session.confirm_password_input
            } else {
                m.session.confirm_password_input
            },
            auth_error: None,
            ..m.session
        },
    )
    &&& new.session.password_input@.len() == 0
    &&& clears_confirm ==> new.session.confirm_password_input@.len() == 0
    &&& a is LoadData
}

/// The outside work failed: back to `back`, with its message shown.
pub open spec fn key_failed(m: AppState, new: AppState, back: VaultState, e: String, a: Action) -> bool {
    &&& new == with_session(
        m,
        VaultSession { vault_state: back, auth_error: Some(e), ..m.session },
    )
    &&& a is Nothing
}

/// New lists arrived: the folders and counts are taken as they come, the
/// note lists are sorted by the sort mode; the vault opens if
/// it was loading; the open note stays open if it is still listed, else the
/// editor is emptied; the first time, the remembered notes are looked up.
pub open spec fn data_step(m: AppState, new: AppState, d: Loaded, a: Action) -> bool {
    let notes = d.notes@;
    let subs = d.subfolder_notes@;
    let st = if m.session.vault_state == VaultState::Loading {
        VaultState::Unlocked
    } else {
        m.session.vault_state
    };
    let kept = m.session.selected_note matches Some(id) && listed(notes, subs, id);
    &&& new == AppState {
        session: new.session,
        notes: new.notes,
        subfolder_notes: new.subfolder_notes,
        folders: d.folders,
        subfolders: d.subfolders,
        all_count: d.all_count,
        fav_count: d.fav_count,
        folder_counts: d.folder_counts,
        last_notes_loaded: true,
        ..m
    }
    &&& kept ==> new.session == VaultSession { vault_state: st, ..m.session }
    &&& !kept ==> new.session == VaultSession {
        vault_state: st,
        selected_note: None,
        editor_title: new.session.editor_title,
        editor_body: new.session.editor_body,
        editor_dirty: false,
        ..m.session
    }
    &&& !kept ==> new.session.editor_title@.len() == 0 && new.session.editor_body@.len() == 0
    &&& sorted_from(m.sort_mode, notes, new.notes@)
    &&& new.subfolder_notes@.len() == subs.len()
    &&& forall|k: int|
        0 <= k < subs.len() ==> (#[trigger] new.subfolder_notes@[k]).0 == subs[k].0 && sorted_from(
            m.sort_mode,
            subs[k].1@,
            new.subfolder_notes@[k].1@,
        )
    &&& if m.last_notes_loaded {
        a is Nothing
    } else {
        a is LoadRememberedNote
    }
}

/// The position of a stored window.
pub open spec fn window_index(ws: Seq<(u64, WindowState)>, id: u64) -> int {
    choose|k: int| 0 <= k < ws.len() && ws[k].0 == id
}

/// The window losing the focus: its note saved if it has changes, its
/// menus, hover and drags dropped.
pub open spec fn leaving(s: AppState) -> AppState {
    AppState {
        session: after_save(s.session),
        context_menu: None,
        hovered_item: None,
        color_submenu_for: None,
        move_submenu_for: None,
        dragging: None,
        potential_drag: None,
        ..s
    }
}

/// Another window got the focus: the open note is saved if it has changes,
/// menus, hover and drags are dropped, the focused window's part is stored
/// under its id, and the stored part of the new window takes its place.
/// Focus on the focused window, or on an unknown one, changes nothing.
pub open spec fn focus_step(old: AppState, new: AppState, id: u64, a: Action) -> bool {
    if id == old.focused_window || !has_window(old.other_windows@, id) {
        new == old && a is Nothing
    } else {
        let c = leaving(old);
        let k = window_index(old.other_windows@, id);
        &&& new == AppState {
            focused_window: id,
            other_windows: new.other_windows,
            ..with_window(c, old.other_windows@[k].1)
        }
        &&& new.other_windows@ == old.other_windows@.remove(k).push((old.focused_window, window_of(c)))
        &&& a matches Action::SwitchWindow(r) && request_view(r) == pending_save(old.session)
    }
}

/// Two states that differ at most in the windows stored away.
pub open spec fn same_but_stored_windows(a: AppState, b: AppState) -> bool {
    a == AppState { other_windows: a.other_windows, ..b }
}

/// Moving the focus to another window and back gives the first window its
/// own state again (as it was left: note saved, menus closed); only the
/// order of the stored windows may differ.
pub proof fn law_focus_there_and_back(
    s0: AppState,
    s1: AppState,
    s2: AppState,
    id: u64,
    a1: Action,
    a2: Action,
)
    requires
        app_wf(s0),
        id != s0.focused_window,
        has_window(s0.other_windows@, id),
        focus_step(s0, s1, id, a1),
        focus_step(s1, s2, s0.focused_window, a2),
    ensures
        same_but_stored_windows(s2, leaving(s0)),
{
    let ow = s0.other_windows@;
    let k = window_index(ow, id);
    assert(0 <= k < ow.len() && ow[k].0 == id);
    let c0 = leaving(s0);
    let w1 = s1.other_windows@;
    assert(w1 == ow.remove(k).push((s0.focused_window, window_of(c0))));
    let last = w1.len() - 1;
    assert(w1[last].0 == s0.focused_window);
    assert(has_window(w1, s0.focused_window));
    assert(s1.focused_window == id);
    let j = window_index(w1, s0.focused_window);
    assert(0 <= j < w1.len() && w1[j].0 == s0.focused_window);
    if j != last {
        if j < k {
            assert(w1[j] == ow[j]);
        } else {
            assert(w1[j] == ow[j + 1]);
        }
        assert(has_window(ow, s0.focused_window));
    }
    assert(j == last);
    let c1 = leaving(s1);
    law_snapshot_restore(c1, window_of(c0));
}

/// The ids of the stored windows.
pub open spec fn window_ids(ws: Seq<(u64, WindowState)>) -> Set<u64> {
    Set::new(|x: u64| has_window(ws, x))
}

/// The entry stored under a window id.
pub open spec fn stored(ws: Seq<(u64, WindowState)>, id: u64) -> WindowState {
    ws[window_index(ws, id)].1
}

/// Moving the focus to another stored window: that window becomes the
/// focused one and leaves the store, the window that lost the focus is
/// stored under its id with its own state (note saved, menus closed), and
/// the store still holds each id once, the focused one not among them.
/// Focus on the focused window or on an unknown one changes nothing.
pub proof fn law_switch_focus_store(s0: AppState, s1: AppState, id: u64, a: Action)
    requires
        app_wf(s0),
        focus_step(s0, s1, id, a),
    ensures
        id == s0.focused_window || !has_window(s0.other_windows@, id) ==> s1 == s0,
        id != s0.focused_window && has_window(s0.other_windows@, id) ==> {
            &&& s1.focused_window == id
            &&& window_ids(s1.other_windows@) == window_ids(s0.other_windows@).remove(id).insert(
                s0.focused_window,
            )
            &&& has_window(s1.other_windows@, s0.focused_window)
            &&& stored(s1.other_windows@, s0.focused_window) == window_of(leaving(s0))
            &&& app_wf(s1)
        },
{
    if id != s0.focused_window && has_window(s0.other_windows@, id) {
        let f0 = s0.focused_window;
        let ow = s0.other_windows@;
        let k = window_index(ow, id);
        assert(0 <= k < ow.len() && ow[k].0 == id);
        let w1 = s1.other_windows@;
        assert(w1 == ow.remove(k).push((f0, window_of(leaving(s0)))));
        let last = w1.len() - 1;
        assert(w1[last].0 == f0);
        assert forall|i: int, j: int| 0 <= i < j < w1.len() implies (#[trigger] w1[i]).0 != (
        #[trigger] w1[j]).0 by {
            if i < k {
                assert(w1[i] == ow[i]);
            } else {
                assert(w1[i] == ow[i + 1]);
            }
            if j == last {
                assert(!has_window(ow, f0));
            } else if j < k {
                assert(w1[j] == ow[j]);
            } else {
                assert(w1[j] == ow[j + 1]);
            }
        }
        assert(!has_window(w1, id)) by {
            if has_window(w1, id) {
                let c = choose|c: int| 0 <= c < w1.len() && (#[trigger] w1[c]).0 == id;
                if c < last {
                    if c < k {
                        assert(w1[c] == ow[c]);
                    } else {
                        assert(w1[c] == ow[c + 1]);
                    }
                }
            }
        }
        assert forall|x: u64|
            has_window(w1, x) <==> window_ids(ow).remove(id).insert(f0).contains(x) by {
            if has_window(w1, x) {
                let c = choose|c: int| 0 <= c < w1.len() && (#[trigger] w1[c]).0 == x;
                if c < last {
                    if c < k {
                        assert(w1[c] == ow[c]);
                    } else {
                        assert(w1[c] == ow[c + 1]);
                    }
                    assert(has_window(ow, x));
                }
            }
            if x == f0 {
                assert(w1[last].0 == x);
            } else if has_window(ow, x) && x != id {
                let c = choose|c: int| 0 <= c < ow.len() && (#[trigger] ow[c]).0 == x;
                if c < k {
                    assert(w1[c] == ow[c]);
                } else {
                    assert(c != k);
                    assert(w1[c - 1] == ow[c]);
                }
            }
        }
        assert(window_ids(w1) =~= window_ids(ow).remove(id).insert(f0));
        assert(has_window(w1, f0));
        let j = window_index(w1, f0);
        assert(0 <= j < w1.len() && w1[j].0 == f0);
        if j != last {
            assert(w1[j].0 != w1[last].0);
        }
    }
}

/// Typing the password: it is kept and the message goes.
pub open spec fn password_typed(m: AppState, new: AppState, pw: String, a: Action) -> bool {
    &&& new == with_session(m, VaultSession { password_input: pw, auth_error: None, ..m.session })
    &&& a is Nothing
}

/// Typing the confirmation: it is kept and the message goes.
pub open spec fn confirm_typed(m: AppState, new: AppState, pw: String, a: Action) -> bool {
    &&& new == with_session(
        m,
        VaultSession { confirm_password_input: pw, auth_error: None, ..m.session },
    )
    &&& a is Nothing
}

/// A new search text: it is kept, the editor loses the focus, and the
/// lists are loaded again.
pub open spec fn search_step(m: AppState, new: AppState, q: String, a: Action) -> bool {
    &&& new == AppState { search_query: q, editor_focused: false, ..m }
    &&& a is LoadData
}

/// The graph page is shown or hidden; the settings page closes.
pub open spec fn graph_step(m: AppState, new: AppState, a: Action) -> bool {
    &&& new == with_session(
        m,
        VaultSession { show_graph: !m.session.show_graph, show_settings: false, ..m.session },
    )
    &&& a is Nothing
}

/// The settings page is shown or hidden; the graph page closes.
pub open spec fn settings_step(m: AppState, new: AppState, a: Action) -> bool {
    &&& new == with_session(
        m,
        VaultSession { show_settings: !m.session.show_settings, show_graph: false, ..m.session },
    )
    &&& a is Nothing
}

/// A new sort mode: kept, the sort menu closes, the lists are sorted by it,
/// and it is stored under `sort_mode`.
pub open spec fn sort_step(old: AppState, new: AppState, mode: SortMode, a: Action) -> bool {
    &&& new == AppState {
        sort_mode: mode,
        sort_menu_open: false,
        notes: new.notes,
        subfolder_notes: new.subfolder_notes,
        ..old
    }
    &&& sorted_from(mode, old.notes@, new.notes@)
    &&& new.subfolder_notes@.len() == old.subfolder_notes@.len()
    &&& forall|k: int|
        0 <= k < old.subfolder_notes@.len() ==> (#[trigger] new.subfolder_notes@[k]).0
            == old.subfolder_notes@[k].0 && sorted_from(
            mode,
            old.subfolder_notes@[k].1@,
            new.subfolder_notes@[k].1@,
        )
    &&& a matches Action::SaveSetting(k, v) && k@ == "sort_mode"@ && v@ == sort_mode_text(mode)
}

/// The sort menu opens or closes.
pub open spec fn sort_menu_step(old: AppState, new: AppState, a: Action) -> bool {
    &&& new == AppState { sort_menu_open: !old.sort_menu_open, ..old }
    &&& a is Nothing
}

/// What Escape closes in a state (see `escape_action`).
pub open spec fn escape_of(s: AppState) -> EscapeAction {
    if s.renaming_note is Some {
        EscapeAction::CancelNoteRename
    } else if s.renaming_folder is Some {
        EscapeAction::CancelFolderRename
    } else if s.dialog_open {
        EscapeAction::CloseDialog
    } else if s.editor_search_open {
        EscapeAction::CloseSearch
    } else if s.context_menu is Some {
        EscapeAction::CloseContextMenu
    } else if s.editor_focused {
        EscapeAction::BlurEditor
    } else {
        EscapeAction::Nothing
    }
}

/// Escape closes the innermost thing open: a rename (dropping the typed
/// text), a dialog (dropping the typed password), the find bar, the
/// context menu, or the editor's focus.
pub open spec fn escape_step(old: AppState, new: AppState, a: Action) -> bool {
    &&& a is Nothing
    &&& match escape_of(old) {
        EscapeAction::CancelNoteRename => new == AppState {
            renaming_note: None,
            rename_buffer: new.rename_buffer,
            ..old
        } && new.rename_buffer@.len() == 0,
        EscapeAction::CancelFolderRename => new == AppState {
            renaming_folder: None,
            folder_rename_buffer: new.folder_rename_buffer,
            ..old
        } && new.folder_rename_buffer@.len() == 0,
        EscapeAction::CloseDialog => new == AppState {
            dialog_open: false,
            note_password_input: new.note_password_input,
            ..old
        } && new.note_password_input@.len() == 0,
        EscapeAction::CloseSearch => new == AppState {
            editor_search_open: false,
            editor_search_index: 0,
            search_matches: new.search_matches,
            ..old
        } && new.search_matches@.len() == 0,
        EscapeAction::CloseContextMenu => new == AppState {
            context_menu: None,
            color_submenu_for: None,
            ..old
        },
        EscapeAction::BlurEditor => new == AppState { editor_focused: false, ..old },
        EscapeAction::Nothing => new == old,
    }
}

/// One submenu of a context menu opens (or closes): the move and new-note
/// submenus are set as given, the colour submenu closes.
pub open spec fn submenu_step(
    old: AppState,
    new: AppState,
    move_for: Option<u128>,
    new_note_for: Option<u128>,
    a: Action,
) -> bool {
    &&& new == AppState {
        move_submenu_for: move_for,
        new_note_submenu_for: new_note_for,
        color_submenu_for: None,
        ..old
    }
    &&& a is Nothing
}

/// Typing a note's new title: it is kept.
pub open spec fn rename_typed(old: AppState, new: AppState, t: String, a: Action) -> bool {
    &&& new == AppState { rename_buffer: t, ..old }
    &&& a is Nothing
}

/// Typing a folder's new name: it is kept.
pub open spec fn folder_rename_typed(old: AppState, new: AppState, t: String, a: Action) -> bool {
    &&& new == AppState { folder_rename_buffer: t, ..old }
    &&& a is Nothing
}

/// Typing a note password: it is kept and the message goes.
pub open spec fn note_password_typed(old: AppState, new: AppState, pw: String, a: Action) -> bool {
    &&& new == AppState {
        note_password_input: pw,
        session: VaultSession { auth_error: None, ..old.session },
        ..old
    }
    &&& a is Nothing
}

/// The dialog closes, dropping the typed note password, and the context
/// menu closes.
pub open spec fn dialog_closed(m: AppState, new: AppState, a: Action) -> bool {
    &&& new == AppState {
        dialog_open: false,
        note_password_input: new.note_password_input,
        context_menu: None,
        ..m
    }
    &&& new.note_password_input@.len() == 0
    &&& a is Nothing
}

/// The lists are loaded again.
pub open spec fn refresh_step(m: AppState, new: AppState, a: Action) -> bool {
    new == m && a is LoadData
}

/// The automatic-save timer: when due (see `auto_save_due`), the open note
/// is saved if there is one.
pub open spec fn autosave_step(old: AppState, new: AppState, since: Option<u128>, a: Action) -> bool {
    let due = old.session.editor_dirty && match since {
        Some(n) => n >= old.auto_save_delay * 1_000_000_000,
        None => false,
    };
    if due {
        new == with_session(old, after_save(old.session)) && saves(a, pending_save(old.session))
    } else {
        new == old && a is Nothing
    }
}

/// Locking the open note: the password that opened it is forgotten and the
/// note is read back; without an open note nothing happens.
pub open spec fn lock_note_step(m: AppState, new: AppState, a: Action) -> bool {
    match m.session.selected_note {
        Some(id) => {
            &&& new == with_session(
                m,
                VaultSession { session_decrypted: new.session.session_decrypted, ..m.session },
            )
            &&& new.session.session_decrypted@ == m.session.session_decrypted@.filter(
                |e: (u128, Vec<u8>)| e.0 != id,
            )
            &&& a == Action::LoadNote(id)
        },
        None => new == m && a is Nothing,
    }
}

/// Submitting a note's rename: the typed title (or, when nothing was
/// typed, the note's listed or stored title) goes on its first preview in
/// the list, on its previews in the subfolders, on the open note if it is
/// this one, and into the editor; the rename ends and the store is told.
pub open spec fn note_rename_step(old: AppState, new: AppState, a: Action) -> bool {
    match old.renaming_note {
        None => new == old && a is Nothing,
        Some(id) => {
            let open = match old.session.selected_note {
                Some(sid) => Some((sid, old.session.note_title@)),
                None => None,
            };
            let title = submitted_title(old.notes@, id, old.rename_buffer@, open);
            &&& new == AppState {
                renaming_note: None,
                rename_buffer: new.rename_buffer,
                notes: new.notes,
                subfolder_notes: new.subfolder_notes,
                session: VaultSession {
                    editor_title: new.session.editor_title,
                    note_title: new.session.note_title,
                    ..old.session
                },
                ..old
            }
            &&& new.rename_buffer@.len() == 0
            &&& new.session.editor_title@ == title
            &&& if old.session.selected_note == Some(id) {
                new.session.note_title@ == title
            } else {
                new.session.note_title == old.session.note_title
            }
            &&& retitled(old.notes@, new.notes@, id, title, true)
            &&& new.subfolder_notes@.len() == old.subfolder_notes@.len()
            &&& forall|k: int|
                0 <= k < old.subfolder_notes@.len() ==> (#[trigger] new.subfolder_notes@[k]).0
                    == old.subfolder_notes@[k].0 && retitled(
                    old.subfolder_notes@[k].1@,
                    new.subfolder_notes@[k].1@,
                    id,
                    title,
                    false,
                )
            &&& a matches Action::RenameNote(i, t) && i == id && t@ == title
        },
    }
}

/// Submitting a folder's rename: the rename ends; a name that is blank
/// once trimmed changes nothing more, any other goes on the folder among
/// the root folders and the subfolders and the store is told.
pub open spec fn folder_rename_step(old: AppState, new: AppState, a: Action) -> bool {
    match old.renaming_folder {
        None => new == old && a is Nothing,
        Some(id) => {
            let name = old.folder_rename_buffer@;
            &&& new == AppState {
                renaming_folder: None,
                folder_rename_buffer: new.folder_rename_buffer,
                folders: new.folders,
                subfolders: new.subfolders,
                ..old
            }
            &&& new.folder_rename_buffer@.len() == 0
            &&& if trim(name).len() > 0 {
                &&& renamed(old.folders@, new.folders@, id, name)
                &&& renamed(old.subfolders@, new.subfolders@, id, name)
                &&& a matches Action::RenameFolder(i, n) && i == id && n@ == name
            } else {
                new.folders@ == old.folders@ && new.subfolders@ == old.subfolders@ && a is Nothing
            }
        },
    }
}

/// The sidebar is shown or hidden.
pub open spec fn sidebar_step(m: AppState, new: AppState, a: Action) -> bool {
    new == AppState { show_sidebar: !m.show_sidebar, ..m } && a is Nothing
}

/// Deleting the picked items: the dialog closes; with nothing picked
/// nothing else happens; otherwise every picked note and folder is to be
/// deleted, the picks are cleared, and the open note closes if it is among
/// them.
pub open spec fn delete_multi_step(m: AppState, new: AppState, a: Action) -> bool {
    let sel = m.selection;
    &&& new.selection.last_clicked_note == sel.last_clicked_note
    &&& if sel.multi_selected@.is_empty() && sel.multi_selected_folders@.is_empty() {
        &&& new == AppState { dialog_open: false, selection: new.selection, ..m }
        &&& new.selection.multi_selected@ == sel.multi_selected@
        &&& new.selection.multi_selected_folders@ == sel.multi_selected_folders@
        &&& a is Nothing
    } else {
        let closes = m.session.selected_note matches Some(id) && sel.multi_selected@.contains(id);
        &&& new == AppState { dialog_open: false, selection: new.selection, session: new.session, ..m }
        &&& closes ==> new.session == VaultSession {
            selected_note: None,
            editor_body: new.session.editor_body,
            editor_dirty: false,
            ..m.session
        } && new.session.editor_body@.len() == 0
        &&& !closes ==> new.session == m.session
        &&& new.selection.multi_selected@.is_empty()
        &&& new.selection.multi_selected_folders@.is_empty()
        &&& a matches Action::DeleteItems(ns, fs) && lists(ns@, sel.multi_selected@) && lists(
            fs@,
            sel.multi_selected_folders@,
        )
    }
}

/// The change-password dialog opens (with its fields and the message
/// cleared) or closes.
pub open spec fn change_dialog_step(m: AppState, new: AppState, a: Action) -> bool {
    &&& a is Nothing
    &&& if m.show_change_password {
        new == AppState { show_change_password: false, ..m }
    } else {
        &&& new == AppState {
            show_change_password: true,
            vault_old_password: new.vault_old_password,
            vault_new_password: new.vault_new_password,
            vault_new_password_confirm: new.vault_new_password_confirm,
            session: VaultSession { auth_error: None, ..m.session },
            ..m
        }
        &&& new.vault_old_password@.len() == 0
        &&& new.vault_new_password@.len() == 0
        &&& new.vault_new_password_confirm@.len() == 0
    }
}

/// Which field of the change-password dialog is typed into.
pub enum VaultField {
    Old,
    New,
    Confirm,
}

/// Typing into the change-password dialog: the field takes the text and
/// the message goes.
pub open spec fn vault_field_typed(m: AppState, new: AppState, f: VaultField, t: String, a: Action) -> bool {
    let n = AppState { session: VaultSession { auth_error: None, ..m.session }, ..m };
    &&& a is Nothing
    &&& match f {
        VaultField::Old => new == AppState { vault_old_password: t, ..n },
        VaultField::New => new == AppState { vault_new_password: t, ..n },
        VaultField::Confirm => new == AppState { vault_new_password_confirm: t, ..n },
    }
}

/// Submitting a vault password change: refused with its message (see
/// `vault_password_refusal`), else the change is handed out.
pub open spec fn change_submit_step(m: AppState, new: AppState, a: Action) -> bool {
    match vault_password_refusal(
        m.vault_old_password@,
        m.vault_new_password@,
        m.vault_new_password_confirm@,
    ) {
        Some(e) => refused(m, new, vault_password_message(e), a),
        None => {
            &&& new == m
            &&& a matches Action::ChangeVaultPassword(o, n) && o@ == m.vault_old_password@ && n@
                == m.vault_new_password@
        },
    }
}

/// The change finished: on success the fields are cleared and the dialog
/// closes; on failure its message is shown.
pub open spec fn change_done_step(m: AppState, new: AppState, result: Result<(), String>, a: Action) -> bool {
    &&& a is Nothing
    &&& match result {
        Ok(()) => {
            &&& new == AppState {
                vault_old_password: new.vault_old_password,
                vault_new_password: new.vault_new_password,
                vault_new_password_confirm: new.vault_new_password_confirm,
                show_change_password: false,
                session: VaultSession { auth_error: None, ..m.session },
                ..m
            }
            &&& new.vault_old_password@.len() == 0
            &&& new.vault_new_password@.len() == 0
            &&& new.vault_new_password_confirm@.len() == 0
        },
        Err(e) => new == with_session(m, VaultSession { auth_error: Some(e), ..m.session }),
    }
}

/// The position of the first entry for a view.
pub open spec fn view_entry(list: Seq<(ActiveView, u128)>, view: ActiveView) -> Option<int>
    decreases list.len(),
{
    if list.len() == 0 {
        None
    } else if list.last().0 == view && view_entry(list.drop_last(), view) is None {
        Some(list.len() - 1)
    } else {
        view_entry(list.drop_last(), view)
    }
}

/// The note remembered for a view.
pub open spec fn remembered_note(list: Seq<(ActiveView, u128)>, view: ActiveView) -> Option<u128> {
    match view_entry(list, view) {
        Some(k) => Some(list[k].1),
        None => None,
    }
}

/// The list with note `id` remembered for a view (its entry replaced, or a
/// new entry at the end).
pub open spec fn remember(list: Seq<(ActiveView, u128)>, view: ActiveView, id: u128) -> Seq<(ActiveView, u128)> {
    match view_entry(list, view) {
        Some(k) => list.update(k, (view, id)),
        None => list.push((view, id)),
    }
}

/// The rest of a view switch, once renames in progress were submitted: the
/// open note is saved if it has changes and remembered for the view left,
/// the new view is shown with the graph and settings pages closed and the
/// picks cleared, and the note remembered for it is opened.
pub open spec fn view_switched(m: AppState, new: AppState, view: ActiveView, a: Action, renamed: Action) -> bool {
    let sel = m.session.selected_note;
    let list = match sel {
        Some(id) => remember(m.last_note_per_view@, m.active_view, id),
        None => m.last_note_per_view@,
    };
    &&& new == AppState {
        active_view: view,
        last_note_per_view: new.last_note_per_view,
        selection: new.selection,
        session: VaultSession { show_graph: false, show_settings: false, ..after_save(m.session) },
        ..m
    }
    &&& new.last_note_per_view@ == list
    &&& new.selection.multi_selected@.is_empty()
    &&& new.selection.multi_selected_folders@.is_empty()
    &&& new.selection.last_clicked_note == m.selection.last_clicked_note
    &&& a matches Action::SwitchView(w) && {
        &&& match renamed {
            Action::RenameNote(i, t) => w.renamed_note matches Some(p) && p.0 == i && p.1@ == t@,
            _ => w.renamed_note is None,
        }
        &&& request_view(w.save) == pending_save(m.session)
        &&& match sel {
            Some(id) => w.remember matches Some(p) && p.0@ == "last_note_"@ + view_key_text(
                m.active_view,
            ) && p.1@ == hyphenated(id),
            None => w.remember is None,
        }
        &&& w.open == remembered_note(list, view)
    }
}

/// Switching views: a note's rename in progress is submitted (its title is
/// stored), then a folder's (its new name is kept in the lists only), then
/// the switch itself (see `view_switched`).
pub open spec fn select_view_step(m: AppState, new: AppState, view: ActiveView, a: Action) -> bool {
    exists|m1: AppState, m2: AppState, a1: Action, a2: Action|
        #![trigger note_rename_step(m, m1, a1), folder_rename_step(m1, m2, a2)]
        note_rename_step(m, m1, a1) && folder_rename_step(m1, m2, a2) && view_switched(
            m2,
            new,
            view,
            a,
            a1,
        )
}

/// A folder of the tree opens or closes; the picks are cleared.
pub open spec fn expand_step(m: AppState, new: AppState, id: u128, a: Action) -> bool {
    &&& new == AppState { expanded_folders: new.expanded_folders, selection: new.selection, ..m }
    &&& new.expanded_folders@ == toggled(m.expanded_folders@, id)
    &&& new.selection.multi_selected@.is_empty()
    &&& new.selection.multi_selected_folders@.is_empty()
    &&& new.selection.last_clicked_note == m.selection.last_clicked_note
    &&& a is Nothing
}

/// The context menu and its submenus close; nothing else changes.
pub open spec fn close_menu_step(old: AppState, new: AppState, a: Action) -> bool {
    &&& new == AppState {
        context_menu: None,
        color_submenu_for: None,
        move_submenu_for: None,
        ..old
    }
    &&& a is Nothing
}

/// What an event does to the state `m` that closing the menus and
/// submitting a rename left (for events that close menus), or to the state
/// as it was (for the others).
pub open spec fn event_step(m: AppState, e: Event, new: AppState, a: Action) -> bool {
    match e {
        Event::LockVault => lock_step(m, new, a),
        Event::PasswordInputChanged(pw) => password_typed(m, new, pw, a),
        Event::ConfirmPasswordInputChanged(pw) => confirm_typed(m, new, pw, a),
        Event::SubmitSetup => setup_step(m, new, a),
        Event::SetupDone(Ok(key)) => key_arrived(m, new, key, true, a),
        Event::SetupDone(Err(msg)) => key_failed(m, new, VaultState::Setup, msg, a),
        Event::SubmitLogin => login_step(m, new, a),
        Event::LoginDone(Ok(key)) => key_arrived(m, new, key, false, a),
        Event::LoginDone(Err(msg)) => key_failed(m, new, VaultState::Login, msg, a),
        Event::DataLoaded(d) => data_step(m, new, d, a),
        Event::SearchQueryChanged(q) => search_step(m, new, q, a),
        Event::ToggleGraphView => graph_step(m, new, a),
        Event::ShowSettings => settings_step(m, new, a),
        Event::CloseContextMenu => close_menu_step(m, new, a),
        Event::SetSortMode(mode) => sort_step(m, new, mode, a),
        Event::ToggleSortMenu => sort_menu_step(m, new, a),
        Event::CancelRename => escape_step(m, new, a),
        Event::OpenMoveSubmenu(id) => submenu_step(m, new, Some(id), None, a),
        Event::OpenNewNoteSubmenu(id) => submenu_step(m, new, None, Some(id), a),
        Event::ToggleNewNoteSubmenu(id) => submenu_step(
            m,
            new,
            None,
            if m.new_note_submenu_for == Some(id) {
                None
            } else {
                Some(id)
            },
            a,
        ),
        Event::RenameNoteChanged(t) => rename_typed(m, new, t, a),
        Event::RenameFolderChanged(t) => folder_rename_typed(m, new, t, a),
        Event::RenameNoteSubmit => note_rename_step(m, new, a),
        Event::RenameFolderSubmit => folder_rename_step(m, new, a),
        Event::NotePasswordInputChanged(pw) => note_password_typed(m, new, pw, a),
        Event::CloseDialog => dialog_closed(m, new, a),
        Event::Refresh => refresh_step(m, new, a),
        Event::SearchNext => match_step(
            m,
            new,
            next_index(m.editor_search_index as int, m.search_matches@.len() as int),
            a,
        ),
        Event::SearchPrev => match_step(
            m,
            new,
            prev_index(m.editor_search_index as int, m.search_matches@.len() as int),
            a,
        ),
        Event::AutoSaveTick(since) => autosave_step(m, new, since, a),
        Event::LockNote => lock_note_step(m, new, a),
        Event::ToggleSidebar => sidebar_step(m, new, a),
        Event::DeleteMultiSelected => delete_multi_step(m, new, a),
        Event::ToggleExpandFolder(id) => expand_step(m, new, id, a),
        Event::SelectView(view) => select_view_step(m, new, view, a),
        Event::OpenChangeVaultPasswordDialog => change_dialog_step(m, new, a),
        Event::VaultOldPasswordChanged(t) => vault_field_typed(m, new, VaultField::Old, t, a),
        Event::VaultNewPasswordChanged(t) => vault_field_typed(m, new, VaultField::New, t, a),
        Event::VaultNewPasswordConfirmChanged(t) => vault_field_typed(
            m,
            new,
            VaultField::Confirm,
            t,
            a,
        ),
        Event::SubmitChangeVaultPassword => change_submit_step(m, new, a),
        Event::ChangeVaultPasswordDone(result) => change_done_step(m, new, result, a),
        Event::WindowFocused(id) => focus_step(m, new, id, a),
    }
}

/// Whether an event that closes menus also submits a rename in progress
/// first: all but loaded lists and a refresh, when the rename has taken the
/// focus (no ticks left) and a note or folder is being renamed.
pub open spec fn submits_rename(e: Event, c: AppState) -> bool {
    &&& !(e is DataLoaded || e is Refresh)
    &&& c.rename_pending == 0
    &&& (c.renaming_note is Some || c.renaming_folder is Some)
}

/// The state before an event is handled: where the event closes menus they
/// are closed, and a rename in progress is submitted (the note's rename
/// when a note is being renamed, else the folder's), its outside work
/// being `sub`.
pub open spec fn prepared(old: AppState, e: Event, m: AppState, sub: Option<Action>) -> bool {
    let c = menus_cleared(old);
    if !closes_menus(e) {
        m == old && sub is None
    } else if submits_rename(e, c) {
        sub matches Some(a) && if c.renaming_note is Some {
            note_rename_step(c, m, a)
        } else {
            folder_rename_step(c, m, a)
        }
    } else {
        m == c && sub is None
    }
}

/// What the requirements of `step` ask of the state for an event.
pub open spec fn event_ok(s: AppState, e: Event) -> bool {
    &&& app_wf(s)
    &&& e is SearchNext ==> s.editor_search_index < usize::MAX
    &&& e is SearchPrev ==> s.editor_search_index <= s.search_matches@.len()
}

/// Handles one event: changes the state and says what outside work to do:
/// first the work of a rename that the event submitted (if any), then the
/// event's own.
pub fn step(state: &mut AppState, event: Event) -> (r: (Option<Action>, Action))
    requires
        event_ok(*old(state), event),
    ensures
        app_wf(*final(state)),
        exists|m: AppState|
            #![trigger prepared(*old(state), event, m, r.0)]
            prepared(*old(state), event, m, r.0) && event_step(m, event, *final(state), r.1),
{
    let ghost ev = event;
    let ghost old_state = *state;
    let sub = prepare(state, &event);
    let ghost m = *state;
    let a = handle(state, event);
    let r = (sub, a);
    assert(prepared(old_state, ev, m, r.0) && event_step(m, ev, *state, r.1));
    assert(exists|mm: AppState|
        #![trigger prepared(old_state, ev, mm, r.0)]
        prepared(old_state, ev, mm, r.0) && event_step(mm, ev, *state, r.1));
    r
}

/// Closes the menus and submits a rename, where the event asks for it.
fn prepare(state: &mut AppState, event: &Event) -> (sub: Option<Action>)
    requires
        event_ok(*old(state), *event),
    ensures
        prepared(*old(state), *event, *final(state), sub),
        event_ok(*final(state), *event),
{
    let closes = match event {
        Event::CloseContextMenu => false,
        Event::WindowFocused(_) => false,
        Event::SetSortMode(_) => false,
        Event::ToggleSortMenu => false,
        Event::CancelRename => false,
        Event::OpenMoveSubmenu(_) => false,
        Event::OpenNewNoteSubmenu(_) => false,
        Event::ToggleNewNoteSubmenu(_) => false,
        Event::RenameNoteChanged(_) => false,
        Event::RenameFolderChanged(_) => false,
        Event::RenameNoteSubmit => false,
        Event::RenameFolderSubmit => false,
        Event::NotePasswordInputChanged(_) => false,
        Event::AutoSaveTick(_) => false,
        _ => true,
    };
    if !closes {
        return None;
    }
    close_menus(state);
    let submits = match event {
        Event::DataLoaded(_) => false,
        Event::Refresh => false,
        _ => true,
    };
    if submits && state.rename_pending == 0 && (state.renaming_note.is_some()
        || state.renaming_folder.is_some()) {
        if state.renaming_note.is_some() {
            Some(rename_note_submit(state))
        } else {
            Some(rename_folder_submit(state))
        }
    } else {
        None
    }
}

/// Events about the vault and the open note's saving.
pub open spec fn vault_event(e: Event) -> bool {
    e is AutoSaveTick || e is ChangeVaultPasswordDone || e is ConfirmPasswordInputChanged || e is LockNote || e is LockVault || e is LoginDone || e is OpenChangeVaultPasswordDialog || e is PasswordInputChanged || e is SetupDone || e is SubmitChangeVaultPassword || e is SubmitLogin || e is SubmitSetup || e is VaultNewPasswordChanged || e is VaultNewPasswordConfirmChanged || e is VaultOldPasswordChanged
}

/// Events about the lists, views and windows.
pub open spec fn list_event(e: Event) -> bool {
    e is DataLoaded || e is DeleteMultiSelected || e is Refresh || e is RenameFolderChanged || e is RenameFolderSubmit || e is RenameNoteChanged || e is RenameNoteSubmit || e is SearchQueryChanged || e is SelectView || e is SetSortMode || e is ToggleExpandFolder || e is ToggleSortMenu || e is WindowFocused
}

/// The event's own handling (see `event_step`).
fn handle(state: &mut AppState, event: Event) -> (a: Action)
    requires
        event_ok(*old(state), event),
    ensures
        app_wf(*final(state)),
        event_step(*old(state), event, *final(state), a),
{
    let kind: u8 = match &event {
        Event::LockVault => 0,
        Event::PasswordInputChanged(..) => 0,
        Event::ConfirmPasswordInputChanged(..) => 0,
        Event::SubmitSetup => 0,
        Event::SetupDone(..) => 0,
        Event::SubmitLogin => 0,
        Event::LoginDone(..) => 0,
        Event::AutoSaveTick(..) => 0,
        Event::LockNote => 0,
        Event::OpenChangeVaultPasswordDialog => 0,
        Event::VaultOldPasswordChanged(..) => 0,
        Event::VaultNewPasswordChanged(..) => 0,
        Event::VaultNewPasswordConfirmChanged(..) => 0,
        Event::SubmitChangeVaultPassword => 0,
        Event::ChangeVaultPasswordDone(..) => 0,
        Event::DataLoaded(..) => 1,
        Event::SearchQueryChanged(..) => 1,
        Event::SetSortMode(..) => 1,
        Event::ToggleSortMenu => 1,
        Event::RenameNoteChanged(..) => 1,
        Event::RenameFolderChanged(..) => 1,
        Event::RenameNoteSubmit => 1,
        Event::RenameFolderSubmit => 1,
        Event::Refresh => 1,
        Event::DeleteMultiSelected => 1,
        Event::ToggleExpandFolder(..) => 1,
        Event::SelectView(..) => 1,
        Event::WindowFocused(..) => 1,
        _ => 2,
    };
    if kind == 0 {
        handle_vault(state, event)
    } else if kind == 1 {
        handle_lists(state, event)
    } else {
        handle_ui(state, event)
    }
}

/// Handling of the vault events.
fn handle_vault(state: &mut AppState, event: Event) -> (a: Action)
    requires
        event_ok(*old(state), event),
        vault_event(event),
    ensures
        app_wf(*final(state)),
        event_step(*old(state), event, *final(state), a),
{
    match event {
        Event::LockVault => lock_event(state),
        Event::PasswordInputChanged(pw) => type_password(state, pw),
        Event::ConfirmPasswordInputChanged(pw) => type_confirm(state, pw),
        Event::SubmitSetup => submit_setup_step(state),
        Event::SetupDone(result) => setup_done(state, result),
        Event::SubmitLogin => submit_login_step(state),
        Event::LoginDone(result) => login_done(state, result),
        Event::AutoSaveTick(since) => auto_save_tick(state, since),
        Event::LockNote => lock_note(state),
        Event::OpenChangeVaultPasswordDialog => open_change_dialog(state),
        Event::VaultOldPasswordChanged(t) => type_vault_field(state, VaultField::Old, t),
        Event::VaultNewPasswordChanged(t) => type_vault_field(state, VaultField::New, t),
        Event::VaultNewPasswordConfirmChanged(t) => type_vault_field(state, VaultField::Confirm, t),
        Event::SubmitChangeVaultPassword => submit_change_password(state),
        Event::ChangeVaultPasswordDone(result) => change_password_done(state, result),
        _ => {
            proof {
                assert(false);
            }
            Action::Nothing
        },
    }
}

/// Handling of the list, view and window events.
fn handle_lists(state: &mut AppState, event: Event) -> (a: Action)
    requires
        event_ok(*old(state), event),
        list_event(event),
    ensures
        app_wf(*final(state)),
        event_step(*old(state), event, *final(state), a),
{
    match event {
        Event::DataLoaded(d) => data_loaded(state, d),
        Event::SearchQueryChanged(q) => search_changed(state, q),
        Event::SetSortMode(mode) => set_sort_mode(state, mode),
        Event::ToggleSortMenu => toggle_sort_menu(state),
        Event::RenameNoteChanged(t) => rename_note_changed(state, t),
        Event::RenameFolderChanged(t) => rename_folder_changed(state, t),
        Event::RenameNoteSubmit => rename_note_submit(state),
        Event::RenameFolderSubmit => rename_folder_submit(state),
        Event::Refresh => Action::LoadData,
        Event::DeleteMultiSelected => delete_multi_selected(state),
        Event::ToggleExpandFolder(id) => toggle_expand(state, id),
        Event::SelectView(view) => select_view(state, view),
        Event::WindowFocused(id) => switch_focus(state, id),
        _ => {
            proof {
                assert(false);
            }
            Action::Nothing
        },
    }
}

/// A view's entry lies in the list and is for that view.
proof fn lemma_view_entry(list: Seq<(ActiveView, u128)>, view: ActiveView)
    ensures
        view_entry(list, view) matches Some(k) ==> 0 <= k < list.len() && list[k].0 == view,
    decreases list.len(),
{
    if list.len() > 0 {
        lemma_view_entry(list.drop_last(), view);
    }
}

/// The entry for a view, found.
fn view_entry_exec(list: &Vec<(ActiveView, u128)>, view: ActiveView) -> (r: Option<usize>)
    ensures
        match r {
            Some(k) => view_entry(list@, view) == Some(k as int) && k < list@.len(),
            None => view_entry(list@, view) is None,
        },
{
    let mut found: Option<usize> = None;
    let mut i: usize = 0;
    while i < list.len()
        invariant
            i <= list.len(),
            match found {
                Some(k) => view_entry(list@.take(i as int), view) == Some(k as int),
                None => view_entry(list@.take(i as int), view) is None,
            },
        decreases list.len() - i,
    {
        assert(list@.take(i + 1).drop_last() =~= list@.take(i as int));
        if found.is_none() && list[i].0 == view {
            found = Some(i);
        }
        i = i + 1;
    }
    assert(list@.take(list.len() as int) =~= list@);
    proof {
        lemma_view_entry(list@, view);
    }
    found
}

/// Switching views (see `select_view_step`).
#[verifier::rlimit(80)]
fn select_view(state: &mut AppState, view: ActiveView) -> (a: Action)
    ensures
        select_view_step(*old(state), *final(state), view, a),
{
    let ghost m = *state;
    let a1 = rename_note_submit(state);
    let ghost m1 = *state;
    let a2 = rename_folder_submit(state);
    let ghost m2 = *state;
    let renamed_note = match &a1 {
        Action::RenameNote(i, t) => Some((*i, t.clone())),
        _ => None,
    };
    let save = take_pending_save(&mut state.session);
    let remember = match state.session.selected_note {
        Some(id) => {
            let current = state.active_view;
            match view_entry_exec(&state.last_note_per_view, current) {
                Some(k) => {
                    state.last_note_per_view.set(k, (current, id));
                },
                None => {
                    state.last_note_per_view.push((current, id));
                },
            }
            let mut key = chars_of("last_note_");
            let vk = view_key(&current);
            let vkc = chars_of(vk.as_str());
            extend_chars(&mut key, &vkc);
            Some((string_of(&key), uuid_text(id)))
        },
        None => None,
    };
    state.active_view = view;
    state.session.show_graph = false;
    state.session.show_settings = false;
    state.selection.multi_selected.clear();
    state.selection.multi_selected_folders.clear();
    let open = match view_entry_exec(&state.last_note_per_view, view) {
        Some(k) => Some(state.last_note_per_view[k].1),
        None => None,
    };
    let a = Action::SwitchView(ViewSwitch { renamed_note, save, remember, open });
    assert(note_rename_step(m, m1, a1) && folder_rename_step(m1, m2, a2) && view_switched(
        m2,
        *state,
        view,
        a,
        a1,
    ));
    a
}

/// The change-password dialog (see `change_dialog_step`).
fn open_change_dialog(state: &mut AppState) -> (a: Action)
    ensures
        change_dialog_step(*old(state), *final(state), a),
{
    state.show_change_password = !state.show_change_password;
    if state.show_change_password {
        state.vault_old_password = String::new();
        state.vault_new_password = String::new();
        state.vault_new_password_confirm = String::new();
        state.session.auth_error = None;
    }
    Action::Nothing
}

/// Typing into the change-password dialog (see `vault_field_typed`).
fn type_vault_field(state: &mut AppState, f: VaultField, t: String) -> (a: Action)
    ensures
        vault_field_typed(*old(state), *final(state), f, t, a),
{
    match f {
        VaultField::Old => {
            state.vault_old_password = t;
        },
        VaultField::New => {
            state.vault_new_password = t;
        },
        VaultField::Confirm => {
            state.vault_new_password_confirm = t;
        },
    }
    state.session.auth_error = None;
    Action::Nothing
}

/// Submitting a vault password change (see `change_submit_step`).
fn submit_change_password(state: &mut AppState) -> (a: Action)
    ensures
        change_submit_step(*old(state), *final(state), a),
{
    match change_password_check(
        state.vault_old_password.as_str(),
        state.vault_new_password.as_str(),
        state.vault_new_password_confirm.as_str(),
    ) {
        Err(e) => {
            state.session.auth_error = Some(e.message());
            Action::Nothing
        },
        Ok(()) => Action::ChangeVaultPassword(
            state.vault_old_password.clone(),
            state.vault_new_password.clone(),
        ),

        _ => {
            proof {
                assert(false);
            }
            Action::Nothing
        },
    }
}

/// Handling of the other events.
fn handle_ui(state: &mut AppState, event: Event) -> (a: Action)
    requires
        event_ok(*old(state), event),
        !vault_event(event) && !list_event(event),
    ensures
        app_wf(*final(state)),
        event_step(*old(state), event, *final(state), a),
{
    match event {
        Event::ToggleGraphView => toggle_graph(state),
        Event::ShowSettings => show_settings(state),
        Event::CloseContextMenu => close_context_menu(state),
        Event::CancelRename => cancel_rename(state),
        Event::OpenMoveSubmenu(id) => open_move_submenu(state, id),
        Event::OpenNewNoteSubmenu(id) => open_new_note_submenu(state, id),
        Event::ToggleNewNoteSubmenu(id) => toggle_new_note_submenu(state, id),
        Event::NotePasswordInputChanged(pw) => note_password_changed(state, pw),
        Event::CloseDialog => close_dialog(state),
        Event::SearchNext => {
            let to = search_next(state.editor_search_index, state.search_matches.len());
            go_to_match(state, to)
        },
        Event::SearchPrev => {
            let to = search_prev(state.editor_search_index, state.search_matches.len());
            go_to_match(state, to)
        },
        Event::ToggleSidebar => toggle_sidebar(state),
        _ => {
            proof {
                assert(false);
            }
            Action::Nothing
        },
    }
}

/// The vault password change finished (see `change_done_step`).
fn change_password_done(state: &mut AppState, result: Result<(), String>) -> (a: Action)
    ensures
        change_done_step(*old(state), *final(state), result, a),
{
    match result {
        Ok(()) => {
            state.vault_old_password = String::new();
            state.vault_new_password = String::new();
            state.vault_new_password_confirm = String::new();
            state.session.auth_error = None;
            state.show_change_password = false;
        },
        Err(e) => {
            state.session.auth_error = Some(e);
        },
    }
    Action::Nothing
}

/// Locking the vault (see `lock_step`).
fn lock_event(state: &mut AppState) -> (a: Action)
    ensures
        lock_step(*old(state), *final(state), a),
{
    let r = take_pending_save(&mut state.session);
    lock_vault(&mut state.session);
    match r {
        Some(q) => Action::Save(q),
        None => Action::Nothing,
    }
}

/// Typing the password (see `password_typed`).
fn type_password(state: &mut AppState, pw: String) -> (a: Action)
    ensures
        password_typed(*old(state), *final(state), pw, a),
{
    state.session.password_input = pw;
    state.session.auth_error = None;
    Action::Nothing
}

/// Typing the confirmation (see `confirm_typed`).
fn type_confirm(state: &mut AppState, pw: String) -> (a: Action)
    ensures
        confirm_typed(*old(state), *final(state), pw, a),
{
    state.session.confirm_password_input = pw;
    state.session.auth_error = None;
    Action::Nothing
}

/// The new vault's key arrived, or the setup failed.
fn setup_done(state: &mut AppState, result: Result<Vec<u8>, String>) -> (a: Action)
    ensures
        match result {
            Ok(key) => key_arrived(*old(state), *final(state), key, true, a),
            Err(msg) => key_failed(*old(state), *final(state), VaultState::Setup, msg, a),
        },
{
    match result {
        Ok(key) => {
            state.session.vault_state = VaultState::Loading;
            state.session.vault_key = Some(key);
            state.session.password_input = String::new();
            state.session.confirm_password_input = String::new();
            state.session.auth_error = None;
            Action::LoadData
        },
        Err(e) => {
            state.session.vault_state = VaultState::Setup;
            state.session.auth_error = Some(e);
            Action::Nothing
        },
    }
}

/// The vault's key arrived, or the password was refused.
fn login_done(state: &mut AppState, result: Result<Vec<u8>, String>) -> (a: Action)
    ensures
        match result {
            Ok(key) => key_arrived(*old(state), *final(state), key, false, a),
            Err(msg) => key_failed(*old(state), *final(state), VaultState::Login, msg, a),
        },
{
    match result {
        Ok(key) => {
            state.session.vault_state = VaultState::Loading;
            state.session.vault_key = Some(key);
            state.session.password_input = String::new();
            state.session.auth_error = None;
            Action::LoadData
        },
        Err(e) => {
            state.session.vault_state = VaultState::Login;
            state.session.auth_error = Some(e);
            Action::Nothing
        },
    }
}

/// A new search text (see `search_step`).
fn search_changed(state: &mut AppState, q: String) -> (a: Action)
    ensures
        search_step(*old(state), *final(state), q, a),
{
    state.search_query = q;
    state.editor_focused = false;
    Action::LoadData
}

/// The graph page (see `graph_step`).
fn toggle_graph(state: &mut AppState) -> (a: Action)
    ensures
        graph_step(*old(state), *final(state), a),
{
    state.session.show_graph = !state.session.show_graph;
    state.session.show_settings = false;
    Action::Nothing
}

/// The settings page (see `settings_step`).
fn show_settings(state: &mut AppState) -> (a: Action)
    ensures
        settings_step(*old(state), *final(state), a),
{
    state.session.show_settings = !state.session.show_settings;
    state.session.show_graph = false;
    Action::Nothing
}

/// Closing the context menu (see `close_menu_step`).
fn close_context_menu(state: &mut AppState) -> (a: Action)
    ensures
        close_menu_step(*old(state), *final(state), a),
{
    state.context_menu = None;
    state.color_submenu_for = None;
    state.move_submenu_for = None;
    Action::Nothing
}

/// The sort menu (see `sort_menu_step`).
fn toggle_sort_menu(state: &mut AppState) -> (a: Action)
    ensures
        sort_menu_step(*old(state), *final(state), a),
{
    state.sort_menu_open = !state.sort_menu_open;
    Action::Nothing
}

/// The move submenu (see `submenu_step`).
fn open_move_submenu(state: &mut AppState, id: u128) -> (a: Action)
    ensures
        submenu_step(*old(state), *final(state), Some(id), None, a),
{
    state.move_submenu_for = Some(id);
    state.color_submenu_for = None;
    state.new_note_submenu_for = None;
    Action::Nothing
}

/// The new-note submenu (see `submenu_step`).
fn open_new_note_submenu(state: &mut AppState, id: u128) -> (a: Action)
    ensures
        submenu_step(*old(state), *final(state), None, Some(id), a),
{
    state.new_note_submenu_for = Some(id);
    state.color_submenu_for = None;
    state.move_submenu_for = None;
    Action::Nothing
}

/// The new-note submenu, opened or closed (see `submenu_step`).
fn toggle_new_note_submenu(state: &mut AppState, id: u128) -> (a: Action)
    ensures
        submenu_step(
            *old(state),
            *final(state),
            None,
            (if old(state).new_note_submenu_for == Some(id) {
                None
            } else {
                Some(id)
            }),
            a,
        ),
{
    state.new_note_submenu_for = if state.new_note_submenu_for == Some(id) {
        None
    } else {
        Some(id)
    };
    state.color_submenu_for = None;
    state.move_submenu_for = None;
    Action::Nothing
}

/// Typing a note's new title (see `rename_typed`).
fn rename_note_changed(state: &mut AppState, t: String) -> (a: Action)
    ensures
        rename_typed(*old(state), *final(state), t, a),
{
    state.rename_buffer = t;
    Action::Nothing
}

/// Typing a folder's new name (see `folder_rename_typed`).
fn rename_folder_changed(state: &mut AppState, t: String) -> (a: Action)
    ensures
        folder_rename_typed(*old(state), *final(state), t, a),
{
    state.folder_rename_buffer = t;
    Action::Nothing
}

/// Typing a note password (see `note_password_typed`).
fn note_password_changed(state: &mut AppState, pw: String) -> (a: Action)
    ensures
        note_password_typed(*old(state), *final(state), pw, a),
{
    state.note_password_input = pw;
    state.session.auth_error = None;
    Action::Nothing
}

/// Closing the dialog (see `dialog_closed`).
fn close_dialog(state: &mut AppState) -> (a: Action)
    ensures
        dialog_closed(*old(state), *final(state), a),
{
    state.dialog_open = false;
    state.note_password_input = String::new();
    state.context_menu = None;
    Action::Nothing
}

/// The automatic-save timer (see `autosave_step`).
fn auto_save_tick(state: &mut AppState, since: Option<u128>) -> (a: Action)
    ensures
        autosave_step(*old(state), *final(state), since, a),
{
    if auto_save_due(since, state.auto_save_delay, state.session.editor_dirty) {
        match take_pending_save(&mut state.session) {
            Some(q) => Action::Save(q),
            None => Action::Nothing,
        }
    } else {
        Action::Nothing
    }
}

/// The sidebar (see `sidebar_step`).
fn toggle_sidebar(state: &mut AppState) -> (a: Action)
    ensures
        sidebar_step(*old(state), *final(state), a),
{
    state.show_sidebar = !state.show_sidebar;
    Action::Nothing
}

/// Submitting a note's rename (see `note_rename_step`).
#[verifier::rlimit(60)]
fn rename_note_submit(state: &mut AppState) -> (a: Action)
    ensures
        note_rename_step(*old(state), *final(state), a),
{
    match state.renaming_note {
        None => Action::Nothing,
        Some(id) => {
            let open: Option<(u128, &str)> = match state.session.selected_note {
                Some(sid) => Some((sid, state.session.note_title.as_str())),
                None => None,
            };
            let title = submit_note_rename(
                &mut state.notes,
                &mut state.subfolder_notes,
                id,
                state.rename_buffer.as_str(),
                open,
            );
            state.renaming_note = None;
            state.rename_buffer = String::new();
            if state.session.selected_note == Some(id) {
                state.session.note_title = title.clone();
            }
            let reported = title.clone();
            state.session.editor_title = title;
            Action::RenameNote(id, reported)
        },
    }
}

/// Submitting a folder's rename (see `folder_rename_step`).
fn rename_folder_submit(state: &mut AppState) -> (a: Action)
    ensures
        folder_rename_step(*old(state), *final(state), a),
{
    match state.renaming_folder {
        None => Action::Nothing,
        Some(id) => {
            let mut name = String::new();
            std::mem::swap(&mut name, &mut state.folder_rename_buffer);
            state.renaming_folder = None;
            if rename_folder(&mut state.folders, &mut state.subfolders, id, name.as_str()) {
                Action::RenameFolder(id, name)
            } else {
                Action::Nothing
            }
        },
    }
}

/// Deleting the picked items (see `delete_multi_step`).
fn delete_multi_selected(state: &mut AppState) -> (a: Action)
    ensures
        delete_multi_step(*old(state), *final(state), a),
{
    state.dialog_open = false;
    match delete_selection(&mut state.selection, state.session.selected_note) {
        None => Action::Nothing,
        Some((notes, folders, closes)) => {
            if closes {
                state.session.selected_note = None;
                state.session.editor_body = String::new();
                state.session.editor_dirty = false;
            }
            Action::DeleteItems(notes, folders)
        },
    }
}

/// Opening or closing a folder in the tree (see `expand_step`).
fn toggle_expand(state: &mut AppState, id: u128) -> (a: Action)
    ensures
        expand_step(*old(state), *final(state), id, a),
{
    toggle_expand_folder(&mut state.selection, &mut state.expanded_folders, id);
    Action::Nothing
}

/// Forgets the password of note `id` (see `lock_note_step`).
fn forget_note_password(list: &mut Vec<(u128, Vec<u8>)>, id: u128)
    ensures
        final(list)@ == old(list)@.filter(|e: (u128, Vec<u8>)| e.0 != id),
{
    let mut kept: Vec<(u128, Vec<u8>)> = Vec::new();
    let mut input: Vec<(u128, Vec<u8>)> = Vec::new();
    std::mem::swap(&mut input, list);
    let ghost src = input@;
    let ghost f = |e: (u128, Vec<u8>)| e.0 != id;
    let mut i: usize = 0;
    assert(src.len() == input.len());
    while input.len() > 0
        invariant
            i + input@.len() == src.len(),
            src.len() <= usize::MAX,
            input@ == src.skip(i as int),
            kept@ == src.take(i as int).filter(f),
            f == (|e: (u128, Vec<u8>)| e.0 != id),
        decreases input@.len(),
    {
        let e = input.remove(0);
        proof {
            reveal(Seq::filter);
            let t = src.take(i + 1);
            assert(t.drop_last() =~= src.take(i as int));
            assert(t.last() == e);
            assert(input@ =~= src.skip(i + 1));
        }
        if e.0 != id {
            kept.push(e);
        }
        i = i + 1;
    }
    assert(src.take(src.len() as int) =~= src);
    *list = kept;
}

/// Locks the open note again (see `lock_note_step`).
fn lock_note(state: &mut AppState) -> (a: Action)
    ensures
        lock_note_step(*old(state), *final(state), a),
{
    match state.session.selected_note {
        Some(id) => {
            forget_note_password(&mut state.session.session_decrypted, id);
            Action::LoadNote(id)
        },
        None => Action::Nothing,
    }
}

/// Moves the find bar to a match (see `match_step`).
fn go_to_match(state: &mut AppState, to: Option<usize>) -> (a: Action)
    requires
        to matches Some(i) ==> i < old(state).search_matches@.len(),
    ensures
        match_step(*old(state), *final(state), (match to {
            Some(i) => Some(i as int),
            None => None,
        }), a),
{
    match to {
        Some(i) => {
            let m = state.search_matches[i];
            state.editor_search_index = i;
            state.editor_cursor = (m.line, m.start_col);
            state.editor_focused = true;
        },
        None => {},
    }
    Action::Nothing
}

/// Escape (see `escape_step`).
fn cancel_rename(state: &mut AppState) -> (a: Action)
    ensures
        escape_step(*old(state), *final(state), a),
{
    match escape_action(
        state.renaming_note.is_some(),
        state.renaming_folder.is_some(),
        state.dialog_open,
        state.editor_search_open,
        state.context_menu.is_some(),
        state.editor_focused,
    ) {
        EscapeAction::CancelNoteRename => {
            state.renaming_note = None;
            state.rename_buffer = String::new();
        },
        EscapeAction::CancelFolderRename => {
            state.renaming_folder = None;
            state.folder_rename_buffer = String::new();
        },
        EscapeAction::CloseDialog => {
            state.dialog_open = false;
            state.note_password_input = String::new();
        },
        EscapeAction::CloseSearch => {
            state.editor_search_open = false;
            state.search_matches = Vec::new();
            state.editor_search_index = 0;
        },
        EscapeAction::CloseContextMenu => {
            state.context_menu = None;
            state.color_submenu_for = None;
        },
        EscapeAction::BlurEditor => {
            state.editor_focused = false;
        },
        EscapeAction::Nothing => {},
    }
    Action::Nothing
}

/// A new sort mode (see `sort_step`).
fn set_sort_mode(state: &mut AppState, mode: SortMode) -> (a: Action)
    ensures
        sort_step(*old(state), *final(state), mode, a),
{
    state.sort_mode = mode;
    state.sort_menu_open = false;
    apply_sort(&mut state.notes, &mut state.subfolder_notes, mode);
    Action::SaveSetting("sort_mode".to_owned(), mode.as_str().to_owned())
}

/// Submitting the first password (see `setup_step`).
fn submit_setup_step(state: &mut AppState) -> (a: Action)
    ensures
        setup_step(*old(state), *final(state), a),
{
    match submit_setup(
        state.session.password_input.as_str(),
        state.session.confirm_password_input.as_str(),
    ) {
        Err(e) => {
            state.session.auth_error = Some(e.message());
            Action::Nothing
        },
        Ok(()) => {
            state.session.vault_state = VaultState::Loading;
            state.session.loading_tick = 0;
            Action::CreateVault(state.session.password_input.clone())
        },
    }
}

/// Submitting the password at login (see `login_step`).
fn submit_login_step(state: &mut AppState) -> (a: Action)
    ensures
        login_step(*old(state), *final(state), a),
{
    let p = chars_of(state.session.password_input.as_str());
    if p.len() == 0 {
        state.session.auth_error = Some(SetupError::Empty.message());
        Action::Nothing
    } else {
        state.session.vault_state = VaultState::Loading;
        state.session.loading_tick = 0;
        Action::Unlock(state.session.password_input.clone())
    }
}

/// Closes every menu and submenu, and drops hover and a pending drag.
fn close_menus(s: &mut AppState)
    ensures
        *final(s) == menus_cleared(*old(s)),
{
    s.context_menu = None;
    s.color_submenu_for = None;
    s.move_submenu_for = None;
    s.new_note_submenu_for = None;
    s.toolbar_move_open = false;
    s.potential_drag = None;
    s.hovered_item = None;
}

/// Whether a note id is in the note list or in a subfolder's list, computed.
fn listed_exec(notes: &Vec<NotePreview>, subs: &Vec<(u128, Vec<NotePreview>)>, id: u128) -> (r: bool)
    ensures
        r == listed(notes@, subs@, id),
{
    let mut k: usize = 0;
    while k < notes.len()
        invariant
            k <= notes.len(),
            forall|i: int| 0 <= i < k ==> (#[trigger] notes@[i]).id != id,
        decreases notes.len() - k,
    {
        if notes[k].id == id {
            return true;
        }
        k = k + 1;
    }
    let mut j: usize = 0;
    while j < subs.len()
        invariant
            j <= subs.len(),
            forall|i: int| 0 <= i < notes@.len() ==> (#[trigger] notes@[i]).id != id,
            forall|a: int, b: int|
                0 <= a < j && 0 <= b < subs@[a].1@.len() ==> (#[trigger] subs@[a].1@[b]).id != id,
        decreases subs.len() - j,
    {
        let list = &subs[j].1;
        let mut k: usize = 0;
        while k < list.len()
            invariant
                j < subs@.len(),
                k <= list.len(),
                list@ == subs@[j as int].1@,
                forall|b: int| 0 <= b < k ==> (#[trigger] list@[b]).id != id,
            decreases list.len() - k,
        {
            if list[k].id == id {
                assert(subs@[j as int].1@[k as int].id == id);
                return true;
            }
            k = k + 1;
        }
        j = j + 1;
    }
    false
}

/// New lists arrived (see `data_step`).
#[verifier::rlimit(40)]
fn data_loaded(state: &mut AppState, d: Loaded) -> (a: Action)
    ensures
        data_step(*old(state), *final(state), d, a),
{
    let Loaded { folders, notes, all_count, fav_count, folder_counts, subfolders, subfolder_notes } =
        d;
    let kept = match state.session.selected_note {
        Some(id) => listed_exec(&notes, &subfolder_notes, id),
        None => false,
    };
    match state.session.vault_state {
        VaultState::Loading => {
            state.session.vault_state = VaultState::Unlocked;
        },
        _ => {},
    }
    state.folders = folders;
    state.subfolders = subfolders;
    state.all_count = all_count;
    state.fav_count = fav_count;
    state.folder_counts = folder_counts;
    state.notes = notes;
    state.subfolder_notes = subfolder_notes;
    apply_sort(&mut state.notes, &mut state.subfolder_notes, state.sort_mode);
    if !kept {
        state.session.selected_note = None;
        state.session.editor_title = String::new();
        state.session.editor_body = String::new();
        state.session.editor_dirty = false;
    }
    if state.last_notes_loaded {
        Action::Nothing
    } else {
        state.last_notes_loaded = true;
        Action::LoadRememberedNote
    }
}

/// The position of a stored window, computed.
fn find_window(ws: &Vec<(u64, WindowState)>, id: u64) -> (r: Option<usize>)
    ensures
        match r {
            Some(k) => k < ws@.len() && ws@[k as int].0 == id,
            None => !has_window(ws@, id),
        },
{
    let mut k: usize = 0;
    while k < ws.len()
        invariant
            k <= ws.len(),
            forall|i: int| 0 <= i < k ==> (#[trigger] ws@[i]).0 != id,
        decreases ws.len() - k,
    {
        if ws[k].0 == id {
            return Some(k);
        }
        k = k + 1;
    }
    None
}

/// Another window got the focus (see `focus_step`).
fn switch_focus(state: &mut AppState, id: u64) -> (a: Action)
    requires
        app_wf(*old(state)),
    ensures
        app_wf(*final(state)),
        focus_step(*old(state), *final(state), id, a),
{
    if id == state.focused_window {
        return Action::Nothing;
    }
    let k = match find_window(&state.other_windows, id) {
        Some(k) => k,
        None => {
            return Action::Nothing;
        },
    };
    let ghost old_state = *state;
    assert(has_window(old_state.other_windows@, id)) by {
        assert(old_state.other_windows@[k as int].0 == id);
    }
    assert(window_index(old_state.other_windows@, id) == k) by {
        let ow = old_state.other_windows@;
        let c = window_index(ow, id);
        assert(0 <= c < ow.len() && ow[c].0 == id);
        if c < k {
            assert(ow[c].0 != ow[k as int].0);
        } else if c > k {
            assert(ow[k as int].0 != ow[c].0);
        }
    }
    let save = take_pending_save(&mut state.session);
    state.context_menu = None;
    state.hovered_item = None;
    state.color_submenu_for = None;
    state.move_submenu_for = None;
    state.dragging = None;
    state.potential_drag = None;
    let ghost cleared = *state;
    let saved = snapshot_window_state(state);
    let focused = state.focused_window;
    let (_, loaded) = state.other_windows.remove(k);
    state.other_windows.push((focused, saved));
    restore_window_state(state, loaded);
    state.focused_window = id;
    proof {
        let ws = state.other_windows@;
        let ow = old_state.other_windows@;
        assert(ws == ow.remove(k as int).push((old_state.focused_window, window_of(cleared))));
        assert forall|i: int, j: int| 0 <= i < j < ws.len() implies (#[trigger] ws[i]).0 != (
        #[trigger] ws[j]).0 by {
            if j == ws.len() - 1 {
                if i < k {
                    assert(ws[i] == ow[i]);
                } else {
                    assert(ws[i] == ow[i + 1]);
                }
            } else {
                if i < k {
                    assert(ws[i] == ow[i]);
                } else {
                    assert(ws[i] == ow[i + 1]);
                }
                if j < k {
                    assert(ws[j] == ow[j]);
                } else {
                    assert(ws[j] == ow[j + 1]);
                }
            }
        }
        if has_window(ws, id) {
            let c = choose|c: int| 0 <= c < ws.len() && (#[trigger] ws[c]).0 == id;
            if c < ws.len() - 1 {
                if c < k {
                    assert(ws[c] == ow[c]);
                } else {
                    assert(ws[c] == ow[c + 1]);
                }
            }
        }
    }
    Action::SwitchWindow(save)
}

/// The state at start-up: the login screen where a vault password is
/// stored, else the setup screen; nothing loaded, open or typed; one window.
pub fn new_app_state(has_vault_password: bool, sort_mode: SortMode, window: u64) -> (s: AppState)
    ensures
        s.session.vault_state == (if has_vault_password {
            VaultState::Login
        } else {
            VaultState::Setup
        }),
        s.session.vault_key is None,
        s.session.password_input@.len() == 0,
        s.session.confirm_password_input@.len() == 0,
        s.session.auth_error is None,
        s.session.session_decrypted@.len() == 0,
        blank_window(window_of(s)),
        s.sort_mode == sort_mode,
        s.focused_window == window,
        s.other_windows@.len() == 0,
        app_wf(s),
{
    let vault_state = if has_vault_password {
        VaultState::Login
    } else {
        VaultState::Setup
    };
    AppState {
        session: VaultSession {
            vault_state,
            vault_key: None,
            password_input: String::new(),
            confirm_password_input: String::new(),
            auth_error: None,
            loading_tick: 0,
            session_decrypted: Vec::new(),
            selected_note: None,
            editor_title: String::new(),
            editor_body: String::new(),
            editor_dirty: false,
            show_graph: false,
            show_settings: false,
            note_title: String::new(),
            image_cache: Vec::new(),
            image_sizes: Vec::new(),
        },
        notes: Vec::new(),
        subfolder_notes: Vec::new(),
        sort_mode,
        auto_save_delay: 2,
        active_view: ActiveView::AllNotes,
        search_query: String::new(),
        context_menu: None,
        color_submenu_for: None,
        move_submenu_for: None,
        new_note_submenu_for: None,
        toolbar_move_open: false,
        potential_drag: None,
        hovered_item: None,
        dragging: None,
        last_notes_loaded: false,
        sort_menu_open: false,
        renaming_note: None,
        rename_buffer: String::new(),
        renaming_folder: None,
        folder_rename_buffer: String::new(),
        dialog_open: false,
        note_password_input: String::new(),
        editor_search_open: false,
        editor_search_index: 0,
        editor_focused: false,
        search_matches: Vec::new(),
        editor_cursor: (0, 0),
        folders: Vec::new(),
        subfolders: Vec::new(),
        all_count: 0,
        fav_count: 0,
        folder_counts: Vec::new(),
        show_sidebar: true,
        show_change_password: false,
        vault_old_password: String::new(),
        vault_new_password: String::new(),
        vault_new_password_confirm: String::new(),
        rename_pending: 0,
        selection: NoteSelection {
            multi_selected: HashSet::new(),
            multi_selected_folders: HashSet::new(),
            last_clicked_note: None,
        },
        expanded_folders: HashSet::new(),
        last_note_per_view: Vec::new(),
        focused_window: window,
        other_windows: Vec::new(),
    }
}

} // verus!
