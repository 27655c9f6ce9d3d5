use notes::colors::{apply_text_color, ColorRange};
use notes::editor::{
    indent_line, renumber_list, toggle_checkbox, toggle_line_prefix, toggle_marker_on_lines,
    toggle_marker_text, unindent_line,
};
use notes::search::{find_search_matches, search_next, search_prev, try_find_search_matches, SearchMatch};

fn lines(v: &[&str]) -> Vec<String> {
    v.iter().map(|s| s.to_string()).collect()
}

#[test]
fn renumber_from_middle_of_list() {
    let mut ls = lines(&["intro", "1. a", "5. b", "3. c", "text", "9. d"]);
    renumber_list(&mut ls, 2);
    assert_eq!(ls, lines(&["intro", "1. a", "2. b", "3. c", "text", "9. d"]));
}

#[test]
fn renumber_keeps_indent_and_text() {
    let mut ls = lines(&["  7. x", "  8. y. z", "12.no space"]);
    renumber_list(&mut ls, 0);
    assert_eq!(ls, lines(&["  1. x", "  2. y. z", "12.no space"]));
    let mut ls2 = ls.clone();
    renumber_list(&mut ls2, 0);
    assert_eq!(ls2, ls);
}

#[test]
fn renumber_outside_a_list_changes_nothing() {
    let mut ls = lines(&["a", "b"]);
    renumber_list(&mut ls, 1);
    assert_eq!(ls, lines(&["a", "b"]));
    let mut ls = lines(&["3. a", "4. b"]);
    renumber_list(&mut ls, 2);
    assert_eq!(ls, lines(&["1. a", "2. b"]));
}

#[test]
fn prefix_toggle_twice_restores() {
    let mut ls = lines(&["hello", "other"]);
    let mut cursor = (0, 2);
    toggle_line_prefix(&mut ls, &mut cursor, None, "## ");
    assert_eq!(ls, lines(&["## hello", "other"]));
    assert_eq!(cursor, (0, 5));
    toggle_line_prefix(&mut ls, &mut cursor, None, "## ");
    assert_eq!(ls, lines(&["hello", "other"]));
    assert_eq!(cursor, (0, 2));
}

#[test]
fn prefix_toggle_over_selection() {
    let mut ls = lines(&["- a", "b", "c"]);
    let mut cursor = (1, 1);
    toggle_line_prefix(&mut ls, &mut cursor, Some(((0, 0), (1, 1))), "- ");
    assert_eq!(ls, lines(&["a", "- b", "c"]));
    assert_eq!(cursor, (1, 0));
    let mut ls = lines(&["a", "b"]);
    let mut cursor = (1, 1);
    toggle_line_prefix(&mut ls, &mut cursor, Some(((0, 0), (9, 0))), "> ");
    assert_eq!(ls, lines(&["> a", "> b"]));
    assert_eq!(cursor, (1, 3));
}

#[test]
fn markers_on_text() {
    assert_eq!(toggle_marker_text("bold", "**"), "**bold**");
    assert_eq!(toggle_marker_text("**bold**", "**"), "bold");
    assert_eq!(toggle_marker_text("**", "**"), "******");
    assert_eq!(toggle_marker_text("`x`", "`"), "x");
    assert_eq!(toggle_marker_text(&toggle_marker_text("plain", "*"), "*"), "plain");
    assert_eq!(toggle_marker_text(&toggle_marker_text("**a**", "**"), "**"), "**a**");
    // wrapped twice over: the second toggle unwraps again
    assert_eq!(toggle_marker_text(&toggle_marker_text("****a****", "**"), "**"), "a");
}

#[test]
fn markers_on_lines() {
    let mut ls = lines(&["  a", "**b**", "c"]);
    toggle_marker_on_lines(&mut ls, 0, 1, "**");
    assert_eq!(ls, lines(&["  **a**", "b", "c"]));
    let mut ls = lines(&["x", "y"]);
    toggle_marker_on_lines(&mut ls, 1, 7, "`");
    assert_eq!(ls, lines(&["x", "`y`"]));
}

#[test]
fn checkboxes() {
    let mut ls = lines(&["- [ ] task", "- [x] done", "plain", "- [x] a - [ ] b"]);
    toggle_checkbox(&mut ls, 0);
    toggle_checkbox(&mut ls, 1);
    toggle_checkbox(&mut ls, 2);
    toggle_checkbox(&mut ls, 3);
    toggle_checkbox(&mut ls, 10);
    assert_eq!(ls, lines(&["- [x] task", "- [ ] done", "plain", "- [ ] a - [ ] b"]));
}

#[test]
fn indent_then_unindent() {
    let mut ls = lines(&["text"]);
    let mut cursor = (0, 2);
    assert!(indent_line(&mut ls, &mut cursor, 4));
    assert_eq!(ls, lines(&["    text"]));
    assert_eq!(cursor, (0, 6));
    assert!(unindent_line(&mut ls, &mut cursor, 4));
    assert_eq!(ls, lines(&["text"]));
    assert_eq!(cursor, (0, 2));
    assert!(!unindent_line(&mut ls, &mut cursor, 4));
    let mut c2 = (0, 1);
    let mut ls2 = lines(&["      x"]);
    assert!(unindent_line(&mut ls2, &mut c2, 4));
    assert_eq!(ls2, lines(&["  x"]));
    assert_eq!(c2, (0, 0));
    let mut c3 = (5, 0);
    assert!(!indent_line(&mut ls2, &mut c3, 4));
}

#[test]
fn note_editor_indents_by_two() {
    let mut ls = lines(&["a", "- item"]);
    let mut cursor = (1, 3);
    assert!(indent_line(&mut ls, &mut cursor, 2));
    assert_eq!(ls, lines(&["a", "  - item"]));
    assert_eq!(cursor, (1, 5));
    assert!(indent_line(&mut ls, &mut cursor, 2));
    assert_eq!(ls, lines(&["a", "    - item"]));
    assert!(unindent_line(&mut ls, &mut cursor, 2));
    assert!(unindent_line(&mut ls, &mut cursor, 2));
    assert_eq!(ls, lines(&["a", "- item"]));
    assert_eq!(cursor, (1, 3));
    assert!(!unindent_line(&mut ls, &mut cursor, 2));
    // a single leading space is not a level
    let mut ls2 = lines(&[" x"]);
    let mut c = (0, 0);
    assert!(!unindent_line(&mut ls2, &mut c, 2));
    assert_eq!(ls2, lines(&[" x"]));
}

fn m(line: usize, s: usize, e: usize) -> SearchMatch {
    SearchMatch { line, start_col: s, end_col: e }
}

#[test]
fn search_case_sensitive() {
    let ls = lines(&["abcabc", "xabc", "ABC"]);
    assert_eq!(find_search_matches(&ls, "abc", true), vec![m(0, 0, 3), m(0, 3, 6), m(1, 1, 4)]);
    assert_eq!(find_search_matches(&lines(&["aaa"]), "aa", true), vec![m(0, 0, 2)]);
    assert_eq!(find_search_matches(&ls, "", true), vec![]);
    assert_eq!(find_search_matches(&lines(&["h\u{e9}llo h\u{e9}llo"]), "llo", true), vec![m(0, 2, 5), m(0, 8, 11)]);
}

#[test]
fn search_case_insensitive() {
    let ls = lines(&["Hello HELLO", "none"]);
    assert_eq!(find_search_matches(&ls, "hello", false), vec![m(0, 0, 5), m(0, 6, 11)]);
    assert_eq!(try_find_search_matches(&ls, "HeLLo", false), Some(vec![m(0, 0, 5), m(0, 6, 11)]));
}

#[test]
fn search_case_insensitive_off_boundary() {
    // lower-casing 'İ' takes one more byte, so the first offset lands inside the first '€'
    let ls = lines(&["\u{130}\u{20ac}\u{20ac}"]);
    assert_eq!(try_find_search_matches(&ls, "\u{20ac}", false), None);
    // there the shift still lands on a character start, one column further on
    let ls = lines(&["\u{130}abc"]);
    let found = try_find_search_matches(&ls, "abc", false).unwrap();
    assert_eq!(found, vec![SearchMatch { line: 0, start_col: 2, end_col: 5 }]);
}

#[test]
fn search_navigation() {
    assert_eq!(search_next(0, 3), Some(1));
    assert_eq!(search_next(2, 3), Some(0));
    assert_eq!(search_prev(0, 3), Some(2));
    assert_eq!(search_prev(2, 3), Some(1));
    assert_eq!(search_next(0, 0), None);
    assert_eq!(search_prev(0, 0), None);
    for i in 0..5 {
        assert_eq!(search_prev(search_next(i, 5).unwrap(), 5), Some(i));
    }
}

fn views(cs: &[ColorRange]) -> Vec<(usize, usize, usize, String)> {
    cs.iter().map(|c| (c.line, c.start_col, c.end_col, c.color.clone())).collect()
}

#[test]
fn text_colors() {
    let ls = lines(&["hello", "wide world", "end"]);
    let mut cs: Vec<ColorRange> = Vec::new();
    apply_text_color(&mut cs, &ls, (0, 1), (0, 4), "120,50,50");
    assert_eq!(views(&cs), vec![(0, 1, 4, "120,50,50".to_string())]);
    apply_text_color(&mut cs, &ls, (0, 1), (0, 4), "0,0,0");
    assert_eq!(views(&cs), vec![(0, 1, 4, "0,0,0".to_string())]);
    apply_text_color(&mut cs, &ls, (0, 2), (2, 1), "9");
    assert_eq!(
        views(&cs),
        vec![
            (0, 1, 4, "0,0,0".to_string()),
            (0, 2, 5, "9".to_string()),
            (1, 0, 10, "9".to_string()),
            (2, 0, 1, "9".to_string()),
        ]
    );
    apply_text_color(&mut cs, &ls, (2, 0), (1, 0), "x");
    assert_eq!(cs.len(), 4);
}
