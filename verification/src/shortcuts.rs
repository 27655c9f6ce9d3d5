//! The keyboard shortcuts of the unlocked vault.
use vstd::prelude::*;
use crate::text::chars_of;

verus! {

/// A key as the shortcuts see it.
#[derive(Debug, Clone, PartialEq, Eq)]
pub enum Key {
    /// A key that types text (the text it types).
    Character(String),
    Escape,
    ArrowUp,
    ArrowDown,
    /// Any other key.
    Other,
}

/// What a shortcut does.
#[derive(Debug, Clone, Copy, PartialEq, Eq, Structural)]
pub enum Shortcut {
    /// Ctrl+Shift+N: a new folder at the top level.
    NewFolder,
    /// Ctrl+Shift+W: a new window.
    NewWindow,
    /// Ctrl+N: a new text note.
    NewNote,
    /// Ctrl+S: save the note.
    Save,
    /// Ctrl+B: show or hide the sidebar.
    ToggleSidebar,
    /// Ctrl+F: open or close the find bar.
    ToggleSearch,
    /// Ctrl+C: copy the picked notes and folders.
    Copy,
    /// Ctrl+V: paste them.
    Paste,
    /// Ctrl+plus (or =): zoom in.
    ZoomIn,
    /// Ctrl+minus (or _): zoom out.
    ZoomOut,
    /// Ctrl+0: back to 100 %.
    ZoomReset,
    /// Escape: close what is open (see `escape_action`).
    Escape,
    /// Up arrow without Ctrl.
    LineUp,
    /// Down arrow without Ctrl.
    LineDown,
}

/// Whether a key's text is one of two single characters.
pub open spec fn typed_one_of(t: Seq<char>, a: char, b: char) -> bool {
    t == seq![a] || t == seq![b]
}

/// The shortcut of a key pressed with or without Ctrl (the command key)
/// and Shift.
pub open spec fn shortcut_of(key: Key, ctrl: bool, shift: bool) -> Option<Shortcut> {
    match key {
        Key::Character(c) => if ctrl && shift {
            if typed_one_of(c@, 'N', 'n') {
                Some(Shortcut::NewFolder)
            } else if typed_one_of(c@, 'W', 'w') {
                Some(Shortcut::NewWindow)
            } else {
                None
            }
        } else if ctrl {
            if typed_one_of(c@, 'n', 'N') {
                Some(Shortcut::NewNote)
            } else if typed_one_of(c@, 's', 'S') {
                Some(Shortcut::Save)
            } else if typed_one_of(c@, 'b', 'B') {
                Some(Shortcut::ToggleSidebar)
            } else if typed_one_of(c@, 'f', 'F') {
                Some(Shortcut::ToggleSearch)
            } else if typed_one_of(c@, 'c', 'C') {
                Some(Shortcut::Copy)
            } else if typed_one_of(c@, 'v', 'V') {
                Some(Shortcut::Paste)
            } else if typed_one_of(c@, '+', '=') {
                Some(Shortcut::ZoomIn)
            } else if typed_one_of(c@, '-', '_') {
                Some(Shortcut::ZoomOut)
            } else if c@ == seq!['0'] {
                Some(Shortcut::ZoomReset)
            } else {
                None
            }
        } else {
            None
        },
        Key::Escape => Some(Shortcut::Escape),
        Key::ArrowUp => if !ctrl {
            Some(Shortcut::LineUp)
        } else {
            None
        },
        Key::ArrowDown => if !ctrl {
            Some(Shortcut::LineDown)
        } else {
            None
        },
        Key::Other => None,
    }
}

/// Whether the typed text is one of two single characters, computed.
fn one_of(t: &Vec<char>, a: char, b: char) -> (r: bool)
    ensures
        r == typed_one_of(t@, a, b),
{
    if t.len() == 1 {
        assert(t@ == seq![t@[0]]);
        t[0] == a || t[0] == b
    } else {
        false
    }
}

/// The shortcut of a key press, if it has one.
pub fn shortcut(key: &Key, ctrl: bool, shift: bool) -> (r: Option<Shortcut>)
    ensures
        r == shortcut_of(*key, ctrl, shift),
{
    match key {
        Key::Character(c) => {
            let t = chars_of(c.as_str());
            if ctrl && shift {
                if one_of(&t, 'N', 'n') {
                    Some(Shortcut::NewFolder)
                } else if one_of(&t, 'W', 'w') {
                    Some(Shortcut::NewWindow)
                } else {
                    None
                }
            } else if ctrl {
                if one_of(&t, 'n', 'N') {
                    Some(Shortcut::NewNote)
                } else if one_of(&t, 's', 'S') {
                    Some(Shortcut::Save)
                } else if one_of(&t, 'b', 'B') {
                    Some(Shortcut::ToggleSidebar)
                } else if one_of(&t, 'f', 'F') {
                    Some(Shortcut::ToggleSearch)
                } else if one_of(&t, 'c', 'C') {
                    Some(Shortcut::Copy)
                } else if one_of(&t, 'v', 'V') {
                    Some(Shortcut::Paste)
                } else if one_of(&t, '+', '=') {
                    Some(Shortcut::ZoomIn)
                } else if one_of(&t, '-', '_') {
                    Some(Shortcut::ZoomOut)
                } else if one_of(&t, '0', '0') {
                    Some(Shortcut::ZoomReset)
                } else {
                    None
                }
            } else {
                None
            }
        },
        Key::Escape => Some(Shortcut::Escape),
        Key::ArrowUp => if !ctrl {
            Some(Shortcut::LineUp)
        } else {
            None
        },
        Key::ArrowDown => if !ctrl {
            Some(Shortcut::LineDown)
        } else {
            None
        },
        Key::Other => None,
    }
}

/// Ctrl+F opens the find bar even while a text field has the key press.
pub fn find_while_typing(key: &Key, ctrl: bool, captured: bool) -> (r: bool)
    ensures
        r == (ctrl && captured && match *key {
            Key::Character(c) => typed_one_of(c@, 'f', 'F'),
            _ => false,
        }),
{
    match key {
        Key::Character(c) => {
            let t = chars_of(c.as_str());
            ctrl && captured && one_of(&t, 'f', 'F')
        },
        _ => false,
    }
}

} // verus!
