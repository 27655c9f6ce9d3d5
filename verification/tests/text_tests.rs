use notes::images::{body_needs_image_migration, count_image_candidates, migrate_body_images, migrate_body_images_with_ids};
use notes::size::format_file_size;
use notes::snippet::generate_snippet;
use notes::strip::strip_all_formatting;
use notes::types::{view_key, window_title, ActiveView, SortMode};
use notes::words::{char_to_byte_static, find_word_bounds, truncate_filename};

#[test]
fn sort_mode_round_trip() {
    for m in [SortMode::Modified, SortMode::Created, SortMode::NameAZ, SortMode::NameZA, SortMode::Type] {
        assert_eq!(SortMode::from_str(m.as_str()), m);
    }
    assert_eq!(SortMode::NameAZ.as_str(), "name_az");
    assert_eq!(SortMode::Type.as_str(), "type");
}

#[test]
fn sort_mode_unknown_text_is_modified() {
    assert_eq!(SortMode::from_str("bogus"), SortMode::Modified);
    assert_eq!(SortMode::from_str(""), SortMode::Modified);
    assert_eq!(SortMode::from_str("Created"), SortMode::Modified);
    assert_eq!(SortMode::from_str("created"), SortMode::Created);
}

#[test]
fn view_keys() {
    assert_eq!(view_key(&ActiveView::AllNotes), "all");
    assert_eq!(view_key(&ActiveView::Favorites), "fav");
    assert_eq!(
        view_key(&ActiveView::Folder(0x67e5_5044_10b1_426f_9247_bb68_0e5f_e0c8)),
        "67e55044-10b1-426f-9247-bb680e5fe0c8"
    );
    assert_eq!(view_key(&ActiveView::Folder(0)), "00000000-0000-0000-0000-000000000000");
}

#[test]
fn window_titles() {
    assert_eq!(window_title(true, None), "Secure Notes");
    assert_eq!(window_title(true, Some("Todo")), "Secure Notes");
    assert_eq!(window_title(false, None), "Secure Notes");
    assert_eq!(window_title(false, Some("")), "Secure Notes \u{2014} Untitled");
    assert_eq!(window_title(false, Some("Todo")), "Secure Notes \u{2014} Todo");
}

#[test]
fn strip_removes_inline_formatting() {
    assert_eq!(
        strip_all_formatting("**bold** and *it* `code` [link](http://x) {c:255,0,0}red{/c}"),
        "bold and it code link red"
    );
    assert_eq!(strip_all_formatting("plain text"), "plain text");
    assert_eq!(strip_all_formatting(""), "");
}

#[test]
fn strip_edge_cases() {
    assert_eq!(strip_all_formatting("a * b"), "a * b");
    assert_eq!(strip_all_formatting("***x***"), "*x*");
    assert_eq!(strip_all_formatting("[text] (no link)"), "[text] (no link)");
    assert_eq!(strip_all_formatting("**unclosed"), "**unclosed");
    assert_eq!(strip_all_formatting("{c:1,2,3}no close"), "{c:1,2,3}no close");
}

#[test]
fn strip_color_tag_with_non_ascii_text() {
    assert_eq!(strip_all_formatting("{c:x}\u{e9}{/c}"), "\u{e9}");
    assert_eq!(strip_all_formatting("{c:1}\u{e9}\u{e9}\u{e9}\u{e9}\u{e9}{/c}"), "\u{e9}\u{e9}\u{e9}\u{e9}\u{e9}");
}

#[test]
fn strip_keeps_plain_text_and_never_grows() {
    let plain = "no markers here: 1 + 2 = 3 (ok) ]";
    assert_eq!(strip_all_formatting(plain), plain);
    for line in ["**a**", "`x`", "[t](u)", "{c:1}z{/c}", "*i*", "***", "[", "{c:", "a*b*c"] {
        assert!(strip_all_formatting(line).chars().count() <= line.chars().count());
    }
}

#[test]
fn strip_nested_formatting() {
    assert_eq!(strip_all_formatting("**a *b* c**"), "a b c");
    assert_eq!(strip_all_formatting("[**x**](u)"), "x");
    assert_eq!(strip_all_formatting("{c:1}**y**{/c}!"), "y!");
    assert_eq!(strip_all_formatting("`**kept**`"), "**kept**");
}

#[test]
fn snippet_basic() {
    assert_eq!(generate_snippet("# Title\nSome **bold** text"), "Title Some bold text");
    assert_eq!(generate_snippet(""), "");
    assert_eq!(generate_snippet("   \n\n"), "");
}

#[test]
fn snippet_skips_password_blocks() {
    assert_eq!(generate_snippet("%%pass\nsecret\n%%pass\nvisible"), "visible");
}

#[test]
fn snippet_code_fences_and_lists() {
    assert_eq!(generate_snippet("```\ncode\n```"), "code");
    assert_eq!(generate_snippet("- [ ] task\n- [x] done\n- item"), "task done item");
    assert_eq!(generate_snippet("> quote `code`"), "quote code");
    assert_eq!(generate_snippet("## Heading\r\nline"), "Heading line");
}

#[test]
fn snippet_tables_and_images() {
    assert_eq!(generate_snippet("| a | b |\n|---|---|\n| c | d |"), "a | b c | d");
    assert_eq!(generate_snippet("![img](img:abc)\ntext"), "Image text");
    assert_eq!(generate_snippet("|  |  |"), "|  |  |");
}

#[test]
fn snippet_is_cut_at_sixty() {
    let long = "a".repeat(100);
    assert_eq!(generate_snippet(&long), "a".repeat(60));
    let words = "word ".repeat(30);
    let s = generate_snippet(&format!("{}\nsecond line", words));
    assert_eq!(s, "word ".repeat(12).trim_end());
}

#[test]
fn image_migration_detection() {
    let big = "x".repeat(1100);
    assert!(body_needs_image_migration(&format!("x\n![a](data:image/png;base64,{})", big)));
    assert!(body_needs_image_migration(&format!("![a](rgba:2:2:{})", big)));
    assert!(!body_needs_image_migration(&format!("![a](img:{})", big)));
    assert!(!body_needs_image_migration("no image here"));
    // only lines over 1 KB count
    assert!(!body_needs_image_migration("![a](data:image/png;base64,AAAA)"));
    assert!(!body_needs_image_migration(&format!("![a](data:x,y)\n{}", big)));
    let exact = format!("![a](data:,{})", "y".repeat(1024 - 12));
    assert_eq!(exact.len(), 1024);
    assert!(!body_needs_image_migration(&exact));
    assert!(body_needs_image_migration(&format!("{}y", exact)));
}

#[test]
fn image_migration_without_candidates_keeps_body() {
    let body = "a\n  ![x](data:a,b)\n\nlast line";
    assert_eq!(count_image_candidates(body), 0);
    assert_eq!(migrate_body_images(body), (body.to_string(), vec![]));
}

#[test]
fn image_migration_paren_before_link_keeps_line() {
    let body = format!("![)]({}", "x".repeat(100));
    assert_eq!(count_image_candidates(&body), 0);
    assert_eq!(migrate_body_images(&body), (body.clone(), vec![]));
    assert_eq!(migrate_body_images_with_ids(&body, &[]), (body.clone(), vec![]));
}

#[test]
fn image_migration_with_ids() {
    let data = "A".repeat(100);
    let body = format!("intro\n  ![pic](data:image/png;base64,{})\nshort ![x](data:a,b)", data);
    assert_eq!(count_image_candidates(&body), 1);
    let id: u128 = 0x67e5_5044_10b1_426f_9247_bb68_0e5f_e0c8;
    let (out, entries) = migrate_body_images_with_ids(&body, &[id]);
    assert_eq!(out, "intro\n![pic](img:67e55044-10b1-426f-9247-bb680e5fe0c8)\nshort ![x](data:a,b)");
    assert_eq!(entries.len(), 1);
    assert_eq!(entries[0].0, "img:67e55044-10b1-426f-9247-bb680e5fe0c8");
    assert_eq!(entries[0].1, "image/png");
    assert_eq!(entries[0].2, data);
}

#[test]
fn image_migration_rgba() {
    let data = "B".repeat(100);
    let body = format!("![x](rgba:10:20:{})", data);
    let (out, entries) = migrate_body_images_with_ids(&body, &[1]);
    assert_eq!(out, "![x](img:00000000-0000-0000-0000-000000000001)");
    assert_eq!(entries[0].1, "rgba:10:20");
    assert_eq!(entries[0].2, data);
}

#[test]
fn image_migration_unknown_source_keeps_line() {
    let body = format!("![x](http://{})", "c".repeat(100));
    assert_eq!(count_image_candidates(&body), 1);
    let (out, entries) = migrate_body_images_with_ids(&body, &[5]);
    assert_eq!(out, body);
    assert!(entries.is_empty());
}

#[test]
fn image_migration_fresh_ids() {
    let body = format!("![a](data:image/jpeg;base64,{})", "Z".repeat(120));
    let (out, entries) = migrate_body_images(&body);
    assert_eq!(entries.len(), 1);
    let id = &entries[0].0;
    assert!(id.starts_with("img:"));
    assert_eq!(id.len(), 40);
    assert_eq!(&id[18..19], "4");
    assert_eq!(out, format!("![a]({})", id));
    let (_, again) = migrate_body_images(&body);
    assert_ne!(again[0].0, *id);
}

fn size_oracle(bytes: usize) -> String {
    if bytes < 1024 {
        format!("{} B", bytes)
    } else if bytes < 1024 * 1024 {
        format!("{:.1} KB", bytes as f64 / 1024.0)
    } else if bytes < 1024 * 1024 * 1024 {
        format!("{:.1} MB", bytes as f64 / (1024.0 * 1024.0))
    } else {
        format!("{:.1} GB", bytes as f64 / (1024.0 * 1024.0 * 1024.0))
    }
}

#[test]
fn file_sizes() {
    assert_eq!(format_file_size(0), "0 B");
    assert_eq!(format_file_size(1023), "1023 B");
    assert_eq!(format_file_size(1024), "1.0 KB");
    assert_eq!(format_file_size(1536), "1.5 KB");
    assert_eq!(format_file_size(1280), "1.2 KB");
    assert_eq!(format_file_size(1024 * 1024), "1.0 MB");
    assert_eq!(format_file_size(5 * 1024 * 1024 * 1024), "5.0 GB");
}

#[test]
fn file_sizes_match_float_formatting() {
    let mut samples: Vec<usize> = Vec::new();
    for b in (1000..200_000).step_by(7) {
        samples.push(b);
    }
    for k in 0..2000usize {
        samples.push(1024 * 1024 + k * 52_429);
        samples.push((1usize << 30) + k * 53_687_091);
        samples.push((1usize << 53) + k * 3);
        samples.push(usize::MAX - k * 1_000_003);
        samples.push(((2 * k + 1) << 29) + (1usize << 40));
    }
    for b in samples {
        assert_eq!(format_file_size(b), size_oracle(b), "bytes = {}", b);
    }
}

#[test]
fn word_bounds() {
    assert_eq!(find_word_bounds("hello world", 2), (0, 5));
    assert_eq!(find_word_bounds("hello world", 5), (5, 6));
    assert_eq!(find_word_bounds("hello world", 6), (6, 11));
    assert_eq!(find_word_bounds("hello world", 20), (11, 11));
    assert_eq!(find_word_bounds("a  b", 1), (1, 3));
    assert_eq!(find_word_bounds("", 0), (0, 0));
}

#[test]
fn char_to_byte_offsets() {
    assert_eq!(char_to_byte_static("h\u{e9}llo", 2), 3);
    assert_eq!(char_to_byte_static("h\u{e9}llo", 0), 0);
    assert_eq!(char_to_byte_static("h\u{e9}llo", 10), 6);
    assert_eq!(char_to_byte_static("\u{1f600}x", 1), 4);
}

#[test]
fn truncated_file_names() {
    assert_eq!(truncate_filename("report.pdf", 20), "report.pdf");
    assert_eq!(truncate_filename("a_very_long_file_name.txt", 12), "a_ver....txt");
    assert_eq!(truncate_filename("verylongname.extension", 8), "....extension");
    assert_eq!(truncate_filename("noextensionhere", 5), "no...");
    assert_eq!(truncate_filename("exactly10!", 10), "exactly10!");
}
