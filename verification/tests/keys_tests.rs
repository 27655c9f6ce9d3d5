use notes::keys::{
    backspace_image_line, drop_broken_image_refs, enter_key, is_table_body_row, slash_command,
    EnterAction,
};

fn lines(v: &[&str]) -> Vec<String> {
    v.iter().map(|s| s.to_string()).collect()
}

fn enter(v: &[&str], cursor: (usize, usize)) -> (EnterAction, Vec<String>, (usize, usize)) {
    let mut ls = lines(v);
    let mut c = cursor;
    let r = enter_key(&mut ls, &mut c);
    (r, ls, c)
}

#[test]
fn enter_continues_list_items() {
    let (r, ls, c) = enter(&["- [x] done"], (0, 10));
    assert_eq!(r, EnterAction::ContinueList("- [ ] ".to_string()));
    assert_eq!(ls, lines(&["- [x] done"]));
    assert_eq!(c, (0, 10));
    assert_eq!(enter(&["- [X] a"], (0, 7)).0, EnterAction::ContinueList("- [ ] ".to_string()));
    assert_eq!(enter(&["- [ ] a"], (0, 7)).0, EnterAction::ContinueList("- [ ] ".to_string()));
    assert_eq!(enter(&["  - item"], (0, 8)).0, EnterAction::ContinueList("  - ".to_string()));
    assert_eq!(enter(&["3. third"], (0, 8)).0, EnterAction::ContinueList("4. ".to_string()));
    assert_eq!(enter(&["x", "  12. x"], (1, 7)).0, EnterAction::ContinueList("  13. ".to_string()));
    // a number too large for u32 reads as 0
    assert_eq!(enter(&["4294967296. big"], (0, 3)).0, EnterAction::ContinueList("1. ".to_string()));
    assert_eq!(enter(&["4294967294. a"], (0, 3)).0, EnterAction::ContinueList("4294967295. ".to_string()));
}

#[test]
fn enter_copies_indent_by_its_byte_count() {
    // the ideographic space is three bytes, so three characters are copied
    assert_eq!(enter(&["\u{3000}- x"], (0, 4)).0, EnterAction::ContinueList("\u{3000}- - ".to_string()));
}

#[test]
fn enter_on_empty_item_ends_list() {
    let (r, ls, c) = enter(&["a", "- ", "b"], (1, 2));
    assert_eq!(r, EnterAction::EndedList);
    assert_eq!(ls, lines(&["a", "", "b"]));
    assert_eq!(c, (1, 0));
    let (r, ls, c) = enter(&["  - [ ] "], (0, 8));
    assert_eq!(r, EnterAction::EndedList);
    assert_eq!(ls, lines(&[""]));
    assert_eq!(c, (0, 0));
    assert_eq!(enter(&["1. "], (0, 3)).0, EnterAction::EndedList);
}

#[test]
fn enter_plain_newline() {
    for l in ["plain", "1.5 x", "12a. x", "-x", "", "  "] {
        let (r, ls, c) = enter(&[l], (0, 1));
        assert_eq!(r, EnterAction::Newline, "{l:?}");
        assert_eq!(ls, lines(&[l]));
        assert_eq!(c, (0, 1));
    }
    // past the last line
    assert_eq!(enter(&["- a"], (4, 0)).0, EnterAction::Newline);
}

#[test]
fn enter_after_image_opens_line() {
    let (r, ls, c) = enter(&["  ![](img:abc)", "next"], (0, 3));
    assert_eq!(r, EnterAction::OpenedLineBelow);
    assert_eq!(ls, lines(&["  ![](img:abc)", "", "next"]));
    assert_eq!(c, (1, 0));
    // other image sources are plain lines for Enter
    assert_eq!(enter(&["![](data:x)"], (0, 0)).0, EnterAction::Newline);
}

#[test]
fn enter_in_tables() {
    let t = ["| a | b |", "|---|---|", "| c | d |"];
    let (r, ls, c) = enter(&t, (0, 2));
    assert_eq!(r, EnterAction::NextTableRow(Some(2)));
    assert_eq!(ls, lines(&t));
    assert_eq!(c, (0, 2));
    let (r, ls, c) = enter(&t, (2, 2));
    assert_eq!(r, EnterAction::OpenedLineBelow);
    assert_eq!(ls, lines(&["| a | b |", "|---|---|", "| c | d |", ""]));
    assert_eq!(c, (3, 0));
    assert_eq!(enter(&["| a |", "|---|"], (0, 1)).0, EnterAction::NextTableRow(None));
    assert_eq!(enter(&["| a |", "| b |"], (0, 1)).0, EnterAction::NextTableRow(Some(1)));
}

#[test]
fn slash_menu_filter() {
    assert_eq!(slash_command("/hea"), Some("hea".to_string()));
    assert_eq!(slash_command("  /todo"), Some("todo".to_string()));
    assert_eq!(slash_command("/"), Some(String::new()));
    assert_eq!(slash_command("/a b"), None);
    assert_eq!(slash_command("x/"), None);
    assert_eq!(slash_command(""), None);
}

#[test]
fn table_body_rows() {
    assert!(is_table_body_row("| a |"));
    assert!(is_table_body_row("  | x | y |"));
    assert!(!is_table_body_row("|---|:-:|"));
    assert!(!is_table_body_row("| x"));
    assert!(!is_table_body_row("text"));
}

#[test]
fn backspace_removes_image_lines() {
    let mut ls = lines(&["a", "  ![](img:1)", "b"]);
    let mut c = (1, 3);
    assert!(backspace_image_line(&mut ls, &mut c));
    assert_eq!(ls, lines(&["a", "b"]));
    assert_eq!(c, (1, 0));
    let mut ls = lines(&["a", "![](img:x)"]);
    let mut c = (1, 5);
    assert!(backspace_image_line(&mut ls, &mut c));
    assert_eq!(ls, lines(&["a"]));
    assert_eq!(c, (0, 0));
    let mut ls = lines(&["![](img:x)"]);
    let mut c = (0, 0);
    assert!(backspace_image_line(&mut ls, &mut c));
    assert_eq!(ls, lines(&[""]));
    assert_eq!(c, (0, 0));
    let mut ls = lines(&["text"]);
    let mut c = (0, 2);
    assert!(!backspace_image_line(&mut ls, &mut c));
    assert_eq!(ls, lines(&["text"]));
    assert_eq!(c, (0, 2));
}

#[test]
fn selection_delete_drops_broken_images() {
    let mut ls = lines(&["ok", "![broken", "  ![](img:1)  ", "![x](y"]);
    let mut c = (3, 2);
    drop_broken_image_refs(&mut ls, &mut c);
    assert_eq!(ls, lines(&["ok", "  ![](img:1)  "]));
    assert_eq!(c, (1, 2));
    let mut ls = lines(&["![a"]);
    let mut c = (0, 3);
    drop_broken_image_refs(&mut ls, &mut c);
    assert_eq!(ls, lines(&[""]));
    assert_eq!(c, (0, 3));
}
