use incredibulk_core::ClipKind;

#[test]
fn blank_text_is_blank() {
    assert!(ClipKind::text("   \n\t ").is_blank());
    assert!(!ClipKind::text(" x ").is_blank());
}

#[test]
fn digest_separates_kinds_with_equal_payloads() {
    let a = ClipKind::text("a.txt");
    let b = ClipKind::Files { paths: vec![String::from("a.txt")] };
    assert_ne!(a.digest(), b.digest());
}

#[test]
fn preview_collapses_and_truncates() {
    let k = ClipKind::text("line one\n\n   line two\t\tend");
    assert_eq!(k.preview(80), "line one line two end");
    assert_eq!(k.preview(9).chars().count(), 9);
}

#[test]
fn preview_is_char_safe_on_multibyte() {
    let k = ClipKind::text("éàüñ漢字テスト");
    let p = k.preview(4);
    assert_eq!(p.chars().count(), 4);
}

#[test]
fn only_an_image_with_a_png_can_be_embedded() {
    let mut image = incredibulk_core::ImagePayload::raw(2, 2, vec![0; 16]);
    assert!(!image.is_embeddable());
    assert_eq!(image.data_uri(), None);
    image.png = vec![1, 2, 3];
    assert!(image.is_embeddable());
    assert_eq!(image.data_uri().as_deref(), Some("data:image/png;base64,AQID"));
}

#[test]
fn a_preview_of_files_lists_their_names() {
    let k = ClipKind::Files { paths: vec!["/tmp/a.txt".into(), "/home/me/b.md".into()] };
    assert_eq!(k.preview(80), "a.txt, b.md");
    assert_eq!(k.weight(), 2);
    assert_eq!(k.kind_name(), "files");
}

#[test]
fn an_image_preview_gives_its_size() {
    let k = ClipKind::Image { image: incredibulk_core::ImagePayload::raw(640, 480, Vec::new()) };
    assert_eq!(k.preview(3), "Image 640x480");
    assert_eq!(k.weight(), 640 * 480);
    assert!(!k.is_blank());
    let empty = ClipKind::Image { image: incredibulk_core::ImagePayload::raw(0, 10, Vec::new()) };
    assert!(empty.is_blank());
}

#[test]
fn equal_content_has_an_equal_digest() {
    assert_eq!(ClipKind::text("same").digest(), ClipKind::text("same").digest());
    assert_ne!(ClipKind::text("same").digest(), ClipKind::text("other").digest());
}

#[test]
fn the_text_of_an_item_is_there_only_for_text() {
    let t = incredibulk_core::ClipItem::new(1, ClipKind::text("hi"), 0, None);
    assert_eq!(t.text(), Some("hi"));
    assert!(t.is_editable());
    let f = incredibulk_core::ClipItem::new(2, ClipKind::Files { paths: vec![] }, 0, None);
    assert_eq!(f.text(), None);
    assert!(!f.is_editable());
}

#[test]
fn a_path_without_a_file_name_is_labelled_whole() {
    let k = ClipKind::Files { paths: vec!["/".into(), "/srv/data/".into()] };
    assert_eq!(k.preview(80), "/, data");
}

#[test]
fn paths_equal_as_paths_have_an_equal_digest() {
    let a = ClipKind::Files { paths: vec!["/srv//data/".into()] };
    let b = ClipKind::Files { paths: vec!["/srv/data".into()] };
    let c = ClipKind::Files { paths: vec!["/srv/date".into()] };
    assert_eq!(a.digest(), b.digest());
    assert_ne!(a.digest(), c.digest());
}

#[test]
fn an_image_digest_ignores_the_derived_forms() {
    let a = incredibulk_core::ImagePayload::raw(2, 1, vec![1, 2, 3, 4, 5, 6, 7, 8]);
    let mut b = incredibulk_core::ImagePayload::raw(2, 1, vec![1, 2, 3, 4, 5, 6, 7, 8]);
    b.png = vec![9, 9];
    b.thumbnail = "data:image/png;base64,CQk=".into();
    assert_eq!(ClipKind::Image { image: a }.digest(), ClipKind::Image { image: b }.digest());
}
