use notes::images::{dropped_image_mime, image_ref_id, insert_image_line};

fn lines(v: &[&str]) -> Vec<String> {
    v.iter().map(|s| s.to_string()).collect()
}

fn is_v4_ref(r: &str) -> bool {
    let b = r.as_bytes();
    r.len() == 40
        && r.starts_with("img:")
        && [12usize, 17, 22, 27].iter().all(|&k| b[k] == b'-')
        && b[18] == b'4'
        && matches!(b[23], b'8' | b'9' | b'a' | b'b')
        && r[4..].chars().all(|c| c == '-' || c.is_ascii_hexdigit() && !c.is_ascii_uppercase())
}

#[test]
fn image_ids_of_lines() {
    assert_eq!(image_ref_id("  ![](img:abc-123)"), Some("img:abc-123".to_string()));
    assert_eq!(image_ref_id("![photo](img:x) (note)"), Some("img:x) (note".to_string()));
    assert_eq!(image_ref_id("text"), None);
    assert_eq!(image_ref_id("![](img:x"), None);
}

#[test]
fn inserted_images() {
    let mut ls = lines(&["a", "b"]);
    let mut c = (0, 1);
    let r = insert_image_line(&mut ls, &mut c, false);
    assert!(is_v4_ref(&r), "{r}");
    assert_eq!(ls, lines(&["a", &format!("![]({r})"), "b"]));
    assert_eq!(c, (1, 0));
    let mut ls = lines(&["a"]);
    let mut c = (0, 0);
    let r2 = insert_image_line(&mut ls, &mut c, true);
    assert!(is_v4_ref(&r2));
    assert_ne!(r, r2);
    assert_eq!(ls, lines(&["a", &format!("![]({r2})")]));
    assert_eq!(c, (2, 0));
}

#[test]
fn dropped_file_types() {
    assert_eq!(dropped_image_mime("png"), Some("image/png".to_string()));
    assert_eq!(dropped_image_mime("PNG"), Some("image/png".to_string()));
    assert_eq!(dropped_image_mime("ico"), Some("image/png".to_string()));
    assert_eq!(dropped_image_mime("Jpeg"), Some("image/jpeg".to_string()));
    assert_eq!(dropped_image_mime("jpg"), Some("image/jpeg".to_string()));
    assert_eq!(dropped_image_mime("gif"), Some("image/gif".to_string()));
    assert_eq!(dropped_image_mime("BMP"), Some("image/bmp".to_string()));
    assert_eq!(dropped_image_mime("webp"), Some("image/webp".to_string()));
    assert_eq!(dropped_image_mime("pdf"), None);
    assert_eq!(dropped_image_mime(""), None);
}
