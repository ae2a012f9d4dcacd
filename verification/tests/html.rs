use incredibulk_core::{render_html, ClipItem, ClipKind, ImagePayload, Template};
use incredibulk_core::{ClockReading, ZonedInstant};

fn text_item(id: u64, text: &str) -> ClipItem {
    ClipItem::new(id, ClipKind::text(text), 0, None)
}

fn image_item(id: u64, png: Vec<u8>) -> ClipItem {
    let mut image = ImagePayload::raw(40, 30, Vec::new());
    image.png = png;
    ClipItem::new(id, ClipKind::Image { image }, 0, None)
}

fn refs(items: &[ClipItem]) -> Vec<&ClipItem> {
    items.iter().collect()
}

#[test]
fn text_is_escaped_so_a_copied_tag_stays_text() {
    let items = vec![text_item(1, "<script>alert(1)</script> & \"quotes\"")];
    let out = render_html(&refs(&items), &Template::default(), &clock());
    assert!(!out.contains("<script>"), "a copied tag must not become markup");
    assert!(out.contains("&lt;script&gt;"));
    assert!(out.contains("&amp;"));
    assert!(out.contains("&quot;"));
}

#[test]
fn an_image_becomes_an_img_with_its_data_uri() {
    let items = vec![image_item(1, vec![1, 2, 3])];
    let out = render_html(&refs(&items), &Template::default(), &clock());
    assert!(out.contains("<img src=\"data:image/png;base64,AQID\""));
    assert!(out.contains("width=\"40\""));
    assert!(out.contains("height=\"30\""));
}

#[test]
fn an_image_with_no_png_falls_back_to_the_placeholder() {
    let image = ImagePayload::raw(40, 30, Vec::new());
    let items = vec![ClipItem::new(1, ClipKind::Image { image }, 0, None)];
    let out = render_html(&refs(&items), &Template::default(), &clock());
    assert!(!out.contains("<img"));
    assert!(out.contains("[image 40x30]"));
}

#[test]
fn the_alt_text_describes_the_image() {
    let items = vec![image_item(1, vec![9])];
    let out = render_html(&refs(&items), &Template::default(), &clock());
    assert!(out.contains("alt=\"[image 40x30]\""));
}

#[test]
fn newlines_inside_a_fragment_become_breaks() {
    let items = vec![text_item(1, "one\ntwo")];
    let out = render_html(&refs(&items), &Template::default(), &clock());
    assert!(out.contains("one<br />two"));
}

#[test]
fn the_separator_becomes_a_break_not_a_newline() {
    let items = vec![text_item(1, "a"), text_item(2, "b")];
    let out = render_html(&refs(&items), &Template::default(), &clock());
    assert!(out.contains("a<br />b"));
}

#[test]
fn markup_typed_into_the_template_is_shown_not_rendered() {
    let t = Template { separator: "<hr>".into(), ..Default::default() };
    let items = vec![text_item(1, "a"), text_item(2, "b")];
    let out = render_html(&refs(&items), &t, &clock());
    assert!(out.contains("&lt;hr&gt;"), "the template is text, not markup");
    assert!(!out.contains("<hr>"));
}

#[test]
fn the_template_shape_is_kept() {
    let t = Template { item_format: "{index}. {content}".into(), ..Default::default() };
    let items = vec![text_item(1, "a"), text_item(2, "b")];
    let out = render_html(&refs(&items), &t, &clock());
    assert!(out.contains("1. a"));
    assert!(out.contains("2. b"));
}

#[test]
fn an_unknown_token_survives_as_visible_text() {
    let t = Template { item_format: "{nope} {content}".into(), ..Default::default() };
    let items = vec![text_item(1, "a")];
    let out = render_html(&refs(&items), &t, &clock());
    assert!(out.contains("{nope} a"));
}

#[test]
fn an_empty_stack_still_produces_a_container() {
    assert_eq!(render_html(&[], &Template::default(), &clock()), "<div></div>");
}

#[test]
fn no_angle_bracket_of_a_fragment_survives_escaping() {
    let items = vec![text_item(1, "<b>bold</b> a > b < c")];
    let out = render_html(&refs(&items), &Template::default(), &clock());
    let inner = out.trim_start_matches("<div>").trim_end_matches("</div>");
    assert!(!inner.contains('<') && !inner.contains('>'));
}

fn clock() -> ClockReading {
    ClockReading {
        now: ZonedInstant { secs: 1_700_000_000, nanos: 0, offset: 0 },
        offsets: Vec::new(),
    }
}
