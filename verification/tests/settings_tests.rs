use notes::settings::{auto_save_due, load_settings, parse_u32, timers, Timers};
use notes::shortcuts::{find_while_typing, shortcut, Key, Shortcut};
use notes::types::{SortMode, VaultState};

fn ch(s: &str) -> Key {
    Key::Character(s.to_string())
}

#[test]
fn ctrl_shortcuts() {
    assert_eq!(shortcut(&ch("n"), true, false), Some(Shortcut::NewNote));
    assert_eq!(shortcut(&ch("N"), true, true), Some(Shortcut::NewFolder));
    assert_eq!(shortcut(&ch("w"), true, true), Some(Shortcut::NewWindow));
    assert_eq!(shortcut(&ch("s"), true, true), None);
    assert_eq!(shortcut(&ch("S"), true, false), Some(Shortcut::Save));
    assert_eq!(shortcut(&ch("b"), true, false), Some(Shortcut::ToggleSidebar));
    assert_eq!(shortcut(&ch("F"), true, false), Some(Shortcut::ToggleSearch));
    assert_eq!(shortcut(&ch("c"), true, false), Some(Shortcut::Copy));
    assert_eq!(shortcut(&ch("v"), true, false), Some(Shortcut::Paste));
    assert_eq!(shortcut(&ch("="), true, false), Some(Shortcut::ZoomIn));
    assert_eq!(shortcut(&ch("+"), true, false), Some(Shortcut::ZoomIn));
    assert_eq!(shortcut(&ch("_"), true, false), Some(Shortcut::ZoomOut));
    assert_eq!(shortcut(&ch("0"), true, false), Some(Shortcut::ZoomReset));
    assert_eq!(shortcut(&ch("w"), true, false), None);
    assert_eq!(shortcut(&ch("nn"), true, false), None);
    assert_eq!(shortcut(&ch("n"), false, false), None);
}

#[test]
fn named_keys() {
    assert_eq!(shortcut(&Key::Escape, true, true), Some(Shortcut::Escape));
    assert_eq!(shortcut(&Key::ArrowUp, false, true), Some(Shortcut::LineUp));
    assert_eq!(shortcut(&Key::ArrowDown, false, false), Some(Shortcut::LineDown));
    assert_eq!(shortcut(&Key::ArrowDown, true, false), None);
    assert_eq!(shortcut(&Key::Other, true, false), None);
    assert!(find_while_typing(&ch("f"), true, true));
    assert!(!find_while_typing(&ch("f"), true, false));
    assert!(!find_while_typing(&ch("g"), true, true));
    assert!(!find_while_typing(&Key::Escape, true, true));
}

#[test]
fn numbers_read_like_parse() {
    assert_eq!(parse_u32("30"), Some(30));
    assert_eq!(parse_u32("+7"), Some(7));
    assert_eq!(parse_u32("007"), Some(7));
    assert_eq!(parse_u32("4294967295"), Some(u32::MAX));
    assert_eq!(parse_u32("4294967296"), None);
    assert_eq!(parse_u32(""), None);
    assert_eq!(parse_u32("+"), None);
    assert_eq!(parse_u32("-1"), None);
    assert_eq!(parse_u32(" 1"), None);
    assert_eq!(parse_u32("1a"), None);
    for s in ["0", "60", "+15", "99999999999", "x"] {
        assert_eq!(parse_u32(s), s.parse::<u32>().ok(), "{s}");
    }
}

#[test]
fn settings_defaults_and_stored() {
    let d = load_settings(None, None, None, None, None, None, None);
    assert_eq!(d.sort_mode, SortMode::Modified);
    assert_eq!((d.framerate, d.auto_save, d.auto_save_delay), (30, true, 2));
    assert_eq!((d.font_size, d.grid_size, d.line_numbers), (15, 20, false));
    let s = load_settings(
        Some("name_az"),
        Some("60"),
        Some("false"),
        Some("bad"),
        Some("18"),
        Some("25"),
        Some("true"),
    );
    assert_eq!(s.sort_mode, SortMode::NameAZ);
    assert_eq!((s.framerate, s.auto_save, s.auto_save_delay), (60, false, 2));
    assert_eq!((s.font_size, s.grid_size, s.line_numbers), (18, 25, true));
    // anything but "true" is off
    assert!(!load_settings(None, None, Some("yes"), None, None, None, None).auto_save);
}

#[test]
fn running_timers() {
    assert_eq!(
        timers(VaultState::Unlocked, true, true, 30),
        Timers { loading: false, auto_save: true, animation_ms: Some(33) }
    );
    assert_eq!(
        timers(VaultState::Unlocked, true, false, 0),
        Timers { loading: false, auto_save: false, animation_ms: Some(1000) }
    );
    assert_eq!(
        timers(VaultState::Loading, true, true, 60),
        Timers { loading: true, auto_save: false, animation_ms: None }
    );
    assert_eq!(
        timers(VaultState::Login, false, true, 60),
        Timers { loading: false, auto_save: false, animation_ms: None }
    );
}

#[test]
fn auto_save_timing() {
    assert!(auto_save_due(Some(2_000_000_000), 2, true));
    assert!(!auto_save_due(Some(1_999_999_999), 2, true));
    assert!(!auto_save_due(Some(5_000_000_000), 2, false));
    assert!(!auto_save_due(None, 0, true));
    assert!(auto_save_due(Some(0), 0, true));
}

#[test]
fn stored_settings_read_back() {
    for n in [0u32, 7, 15, 60, 1000, u32::MAX] {
        assert_eq!(parse_u32(&n.to_string()), Some(n));
        let s = load_settings(None, Some(&n.to_string()), None, None, None, None, None);
        assert_eq!(s.framerate, n);
    }
    for on in [true, false] {
        let stored = if on { "true" } else { "false" };
        assert_eq!(load_settings(None, None, None, None, None, None, Some(stored)).line_numbers, on);
    }
}
