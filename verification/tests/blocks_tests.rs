use notes::blocks::{
    copy_block_text, delete_line, insert_block, line_menu, set_code_lang, slash_arrow,
    table_add_col, table_add_row, table_delete, table_delete_col, table_delete_row,
    toggle_checkbox_item, BlockKind, LineMenu,
};

fn lines(v: &[&str]) -> Vec<String> {
    v.iter().map(|s| s.to_string()).collect()
}

#[test]
fn add_row_matches_columns() {
    let mut ls = lines(&["| a | b |", "|---|---|"]);
    let mut c = (0, 0);
    table_add_row(&mut ls, &mut c, 0);
    assert_eq!(ls, lines(&["| a | b |", "|          |          |", "|---|---|"]));
    assert_eq!(c, (1, 2));
    let mut ls = lines(&["text"]);
    let mut c = (0, 0);
    table_add_row(&mut ls, &mut c, 0);
    assert_eq!(ls, lines(&["text", "|          |          |          |"]));
    let mut ls = lines(&["x"]);
    let mut c = (0, 1);
    table_add_row(&mut ls, &mut c, 3);
    assert_eq!(ls, lines(&["x"]));
    assert_eq!(c, (0, 1));
}

#[test]
fn add_column_to_whole_table() {
    let mut ls = lines(&["intro", "| a |", "|---|", "| b |", "after"]);
    table_add_col(&mut ls, 3);
    assert_eq!(
        ls,
        lines(&["intro", "| a |          |", "|---|----------|", "| b |          |", "after"])
    );
}

#[test]
fn delete_rows_and_tables() {
    let mut ls = lines(&["a", "b", "c"]);
    let mut c = (2, 4);
    table_delete_row(&mut ls, &mut c, 1);
    assert_eq!(ls, lines(&["a", "c"]));
    assert_eq!(c, (1, 4));
    let mut one = lines(&["a"]);
    let mut c = (0, 0);
    table_delete_row(&mut one, &mut c, 0);
    assert_eq!(one, lines(&["a"]));

    let mut ls = lines(&["x", "| a |", "|---|", "y"]);
    let mut c = (2, 3);
    table_delete(&mut ls, &mut c, 2);
    assert_eq!(ls, lines(&["x", "y"]));
    assert_eq!(c, (1, 0));
    let mut ls = lines(&["| a |", "| b |"]);
    let mut c = (1, 1);
    table_delete(&mut ls, &mut c, 0);
    assert_eq!(ls, lines(&[""]));
    assert_eq!(c, (0, 0));
    // one past the last line: the table that ends the note goes
    let mut ls = lines(&["x", "| a |"]);
    let mut c = (1, 0);
    table_delete(&mut ls, &mut c, 2);
    assert_eq!(ls, lines(&["x"]));
    assert_eq!(c, (0, 0));
}

#[test]
fn delete_column() {
    let mut ls = lines(&["| a | b | c |", "|---|---|---|", "  | 1 | 2 | 3 |", "text"]);
    table_delete_col(&mut ls, 0, 1);
    assert_eq!(ls, lines(&["| a | c |", "|---|---|", "| 1 | 3 |", "text"]));
    let mut ls = lines(&["| a | b |"]);
    table_delete_col(&mut ls, 0, 5);
    assert_eq!(ls, lines(&["| a | b |"]));
    let mut ls = lines(&["| only |"]);
    table_delete_col(&mut ls, 0, 0);
    assert_eq!(ls, lines(&["| only |"]));
}

#[test]
fn delete_image_line_keeps_column() {
    let mut ls = lines(&["a", "![](img:1)", "b"]);
    let mut c = (2, 3);
    delete_line(&mut ls, &mut c, 1);
    assert_eq!(ls, lines(&["a", "b"]));
    assert_eq!(c, (1, 3));
    let mut ls = lines(&["![](img:1)"]);
    let mut c = (0, 2);
    delete_line(&mut ls, &mut c, 0);
    assert_eq!(ls, lines(&[""]));
    assert_eq!(c, (0, 2));
}

#[test]
fn code_language() {
    let mut ls = lines(&["```", "x", "```"]);
    set_code_lang(&mut ls, 0, "rust");
    assert_eq!(ls, lines(&["```rust", "x", "```"]));
    set_code_lang(&mut ls, 0, "");
    assert_eq!(ls, lines(&["```", "x", "```"]));
    set_code_lang(&mut ls, 9, "go");
    assert_eq!(ls, lines(&["```", "x", "```"]));
}

#[test]
fn right_click_menus() {
    let ls = lines(&["[file:ab12:doc.pdf:1.0 KB]", "  ![](img:1)", "| a |", "text"]);
    assert_eq!(line_menu(&ls, 0), LineMenu::File);
    assert_eq!(line_menu(&ls, 1), LineMenu::Image);
    assert_eq!(line_menu(&ls, 2), LineMenu::TableCell);
    assert_eq!(line_menu(&ls, 3), LineMenu::Format);
    assert_eq!(line_menu(&ls, 8), LineMenu::Format);
}

#[test]
fn checkbox_items() {
    let mut ls = lines(&["  - [ ] task", "- [X] t", "- [x] t", "plain"]);
    for i in 0..4 {
        toggle_checkbox_item(&mut ls, i);
    }
    assert_eq!(ls, lines(&["  - [x] task", "- [ ] t", "- [ ] t", "plain"]));
    // twice gives the line back
    let mut ls = lines(&["\t- [x] done"]);
    toggle_checkbox_item(&mut ls, 0);
    toggle_checkbox_item(&mut ls, 0);
    assert_eq!(ls, lines(&["\t- [x] done"]));
}

#[test]
fn slash_menu_arrows() {
    assert_eq!(slash_arrow(0, 3, true), 1);
    assert_eq!(slash_arrow(2, 3, true), 0);
    assert_eq!(slash_arrow(0, 3, false), 2);
    assert_eq!(slash_arrow(1, 3, false), 0);
    assert_eq!(slash_arrow(5, 0, true), 5);
    assert_eq!(slash_arrow(5, 3, true), 0);
}

#[test]
fn slash_blocks() {
    let mut ls = lines(&["a", "/code", "b"]);
    let mut c = (1, 5);
    insert_block(&mut ls, &mut c, BlockKind::Code);
    assert_eq!(ls, lines(&["a", "```", "", "```", "b"]));
    assert_eq!(c, (2, 0));
    let mut ls = lines(&["/pass"]);
    let mut c = (0, 5);
    insert_block(&mut ls, &mut c, BlockKind::Password);
    assert_eq!(ls, lines(&["%%pass", "", "%%pass"]));
    assert_eq!(c, (1, 0));
    let mut ls = lines(&["/table", "z"]);
    let mut c = (0, 6);
    insert_block(&mut ls, &mut c, BlockKind::Table);
    let row = "|            |            |            |";
    let rule = "|------------|------------|------------|";
    assert_eq!(ls, lines(&[row, rule, row, row, row, "z"]));
    assert_eq!(c, (0, 6));
}

#[test]
fn copy_blocks() {
    let ls = lines(&["```rust", "fn a() {}", "", "x", "```", "after"]);
    assert_eq!(copy_block_text(&ls, 0, true), Some("fn a() {}\n\nx".to_string()));
    assert_eq!(copy_block_text(&ls, 1, true), None);
    let ls = lines(&["```", "", "", "y", "```"]);
    assert_eq!(copy_block_text(&ls, 0, true), Some("y".to_string()));
    let ls = lines(&["```", "a", "b"]);
    assert_eq!(copy_block_text(&ls, 0, true), Some("a\nb".to_string()));
    let ls = lines(&["```", "```"]);
    assert_eq!(copy_block_text(&ls, 0, true), None);
    let ls = lines(&["%%pass", "secret", "more", "%%pass", "x"]);
    assert_eq!(copy_block_text(&ls, 0, false), Some("secret\nmore".to_string()));
    assert_eq!(copy_block_text(&ls, 0, true), None);
    assert_eq!(copy_block_text(&ls, 7, false), None);
}

#[test]
fn law_add_then_delete_row() {
    let orig = lines(&["| a | b |", "x"]);
    let mut ls = orig.clone();
    let mut c = (0, 0);
    table_add_row(&mut ls, &mut c, 0);
    table_delete_row(&mut ls, &mut c, 1);
    assert_eq!(ls, orig);
}
