//! Plain enumerations shared by the application's state machine.
use vstd::prelude::*;
use crate::text::{chars_eq, chars_of, string_of};
use crate::ids::{hyphenated, uuid_text};

verus! {

/// Whether the vault is being created, unlocked, loading keys or open.
#[derive(Debug, Clone, PartialEq, Eq, Structural)]
pub enum VaultState {
    Setup,
    Login,
    Loading,
    Unlocked,
}

/// Submenus of the editor toolbar.
#[derive(Debug, Clone, PartialEq, Eq, Structural)]
pub enum EditorSubmenu {
    Format,
    Paragraph,
    Insert,
    TextColor,
}

/// The order in which note previews are listed.
#[derive(Debug, Clone, Copy, PartialEq, Eq, Structural)]
pub enum SortMode {
    Modified,
    Created,
    NameAZ,
    NameZA,
    Type,
}

/// The window edge or corner being dragged to resize.
#[derive(Debug, Clone, Copy, PartialEq, Eq, Structural)]
pub enum ResizeEdge {
    Right,
    Bottom,
    Left,
    Top,
    TopLeft,
    TopRight,
    BottomLeft,
    BottomRight,
}

/// The setting text under which a sort mode is stored.
pub open spec fn sort_mode_text(m: SortMode) -> Seq<char> {
    match m {
        SortMode::Modified => seq!['m', 'o', 'd', 'i', 'f', 'i', 'e', 'd'],
        SortMode::Created => seq!['c', 'r', 'e', 'a', 't', 'e', 'd'],
        SortMode::NameAZ => seq!['n', 'a', 'm', 'e', '_', 'a', 'z'],
        SortMode::NameZA => seq!['n', 'a', 'm', 'e', '_', 'z', 'a'],
        SortMode::Type => seq!['t', 'y', 'p', 'e'],
    }
}

/// The sort mode that a stored setting text selects; unknown text selects `Modified`.
pub open spec fn sort_mode_of_text(s: Seq<char>) -> SortMode {
    if s == sort_mode_text(SortMode::Created) {
        SortMode::Created
    } else if s == sort_mode_text(SortMode::NameAZ) {
        SortMode::NameAZ
    } else if s == sort_mode_text(SortMode::NameZA) {
        SortMode::NameZA
    } else if s == sort_mode_text(SortMode::Type) {
        SortMode::Type
    } else {
        SortMode::Modified
    }
}

/// The view shown in the notes list: every note, favourites, or one folder.
#[derive(Debug, Clone, Copy, PartialEq, Eq, Structural)]
pub enum ActiveView {
    AllNotes,
    Favorites,
    Folder(u128),
}

impl SortMode {
    /// The text under which this sort mode is stored in the settings table.
    pub fn as_str(self) -> (s: &'static str)
        ensures
            s@ == sort_mode_text(self),
    {
        let r = match self {
            SortMode::Modified => "modified",
            SortMode::Created => "created",
            SortMode::NameAZ => "name_az",
            SortMode::NameZA => "name_za",
            SortMode::Type => "type",
        };
        proof {
            reveal_strlit("modified");
            reveal_strlit("created");
            reveal_strlit("name_az");
            reveal_strlit("name_za");
            reveal_strlit("type");
        }
        r
    }

    /// The sort mode that a stored setting selects; unknown text selects `Modified`.
    pub fn from_str(s: &str) -> (m: SortMode)
        ensures
            m == sort_mode_of_text(s@),
    {
        let v = chars_of(s);
        if chars_eq(&v, &['c', 'r', 'e', 'a', 't', 'e', 'd']) {
            SortMode::Created
        } else if chars_eq(&v, &['n', 'a', 'm', 'e', '_', 'a', 'z']) {
            SortMode::NameAZ
        } else if chars_eq(&v, &['n', 'a', 'm', 'e', '_', 'z', 'a']) {
            SortMode::NameZA
        } else if chars_eq(&v, &['t', 'y', 'p', 'e']) {
            SortMode::Type
        } else {
            SortMode::Modified
        }
    }
}

/// Reading back the text that a sort mode is stored under gives that sort mode.
pub proof fn law_sort_mode_round_trip(m: SortMode)
    ensures
        sort_mode_of_text(sort_mode_text(m)) == m,
{
}

/// Different sort modes are stored under different texts.
pub proof fn law_sort_mode_text_injective(a: SortMode, b: SortMode)
    requires
        sort_mode_text(a) == sort_mode_text(b),
    ensures
        a == b,
{
    law_sort_mode_round_trip(a);
    law_sort_mode_round_trip(b);
}

/// The settings key part under which the last opened note of a view is stored.
pub open spec fn view_key_text(view: ActiveView) -> Seq<char> {
    match view {
        ActiveView::AllNotes => seq!['a', 'l', 'l'],
        ActiveView::Favorites => seq!['f', 'a', 'v'],
        ActiveView::Folder(id) => hyphenated(id),
    }
}

/// The key of a view: `all`, `fav`, or the folder's UUID text.
pub fn view_key(view: &ActiveView) -> (k: String)
    ensures
        k@ == view_key_text(*view),
{
    match view {
        ActiveView::AllNotes => string_of(&['a', 'l', 'l']),
        ActiveView::Favorites => string_of(&['f', 'a', 'v']),
        ActiveView::Folder(id) => uuid_text(*id),
    }
}

/// The application's name, shown as the title of its windows.
pub open spec fn app_name() -> Seq<char> {
    seq!['S', 'e', 'c', 'u', 'r', 'e', ' ', 'N', 'o', 't', 'e', 's']
}

/// The title of a window: the application's name for the focused window
/// (or an unknown one); for another open window, the name, an em dash and
/// the title of its note (`Untitled` when empty).
pub open spec fn window_title_text(focused: bool, other_title: Option<Seq<char>>) -> Seq<char> {
    if focused {
        app_name()
    } else {
        match other_title {
            Some(t) => app_name() + seq![' ', '\u{2014}', ' '] + if t.len() == 0 {
                seq!['U', 'n', 't', 'i', 't', 'l', 'e', 'd']
            } else {
                t
            },
            None => app_name(),
        }
    }
}

/// The title of a window, given whether it is the focused window and, for
/// another open window, the title in its editor.
pub fn window_title(focused: bool, other_title: Option<&str>) -> (r: String)
    ensures
        r@ == window_title_text(focused, match other_title {
            Some(t) => Some(t@),
            None => None,
        }),
{
    let mut out: Vec<char> = vec!['S', 'e', 'c', 'u', 'r', 'e', ' ', 'N', 'o', 't', 'e', 's'];
    if !focused {
        if let Some(t) = other_title {
            crate::text::extend_chars(&mut out, &[' ', '\u{2014}', ' ']);
            let v = chars_of(t);
            if v.len() == 0 {
                crate::text::extend_chars(&mut out, &['U', 'n', 't', 'i', 't', 'l', 'e', 'd']);
            } else {
                crate::text::extend_chars(&mut out, &v);
            }
        }
    }
    string_of(&out)
}

/// What Escape closes, first match wins.
#[derive(Debug, Clone, Copy, PartialEq, Eq, Structural)]
pub enum EscapeAction {
    /// Stop renaming the note (the typed title is dropped).
    CancelNoteRename,
    /// Stop renaming the folder (the typed name is dropped).
    CancelFolderRename,
    /// Close the open dialog (and clear its password field).
    CloseDialog,
    /// Close the find bar (and forget its matches).
    CloseSearch,
    /// Close the context menu (and its colour submenu).
    CloseContextMenu,
    /// Take the focus from the editor.
    BlurEditor,
    /// Nothing is open.
    Nothing,
}

/// What Escape closes: a note rename, else a folder rename, else a dialog,
/// else the find bar, else a context menu, else the editor's focus.
pub fn escape_action(
    renaming_note: bool,
    renaming_folder: bool,
    dialog_open: bool,
    search_open: bool,
    menu_open: bool,
    editor_focused: bool,
) -> (r: EscapeAction)
    ensures
        r == if renaming_note {
            EscapeAction::CancelNoteRename
        } else if renaming_folder {
            EscapeAction::CancelFolderRename
        } else if dialog_open {
            EscapeAction::CloseDialog
        } else if search_open {
            EscapeAction::CloseSearch
        } else if menu_open {
            EscapeAction::CloseContextMenu
        } else if editor_focused {
            EscapeAction::BlurEditor
        } else {
            EscapeAction::Nothing
        },
{
    if renaming_note {
        EscapeAction::CancelNoteRename
    } else if renaming_folder {
        EscapeAction::CancelFolderRename
    } else if dialog_open {
        EscapeAction::CloseDialog
    } else if search_open {
        EscapeAction::CloseSearch
    } else if menu_open {
        EscapeAction::CloseContextMenu
    } else if editor_focused {
        EscapeAction::BlurEditor
    } else {
        EscapeAction::Nothing
    }
}

} // verus!
