use incredibulk_core::template::unescape;
use incredibulk_core::{presets, render, ClipItem, ClipKind, ImagePayload, Template};
use incredibulk_core::{ClockReading, ZonedInstant};

fn refs(items: &[ClipItem]) -> Vec<&ClipItem> {
    items.iter().collect()
}

fn items(texts: &[&str]) -> Vec<ClipItem> {
    texts
        .iter()
        .enumerate()
        .map(|(i, t)| ClipItem::new(i as u64 + 1, ClipKind::text(*t), 0, None))
        .collect()
}

#[test]
fn default_joins_with_newlines() {
    assert_eq!(render(&refs(&items(&["a", "b"])), &Template::default(), &clock()), "a\nb");
}

#[test]
fn empty_stack_renders_bookends_only() {
    let t = Template { prefix: "<".into(), suffix: ">".into(), ..Default::default() };
    assert_eq!(render(&[], &t, &clock()), "<>");
}

#[test]
fn separator_escapes_are_honoured() {
    let t = Template { separator: "\\n---\\n".into(), ..Default::default() };
    assert_eq!(render(&refs(&items(&["a", "b"])), &t, &clock()), "a\n---\nb");
}

#[test]
fn numbering_is_one_based_and_index0_is_not() {
    let t = Template { item_format: "{index}/{index0}/{count}".into(), ..Default::default() };
    assert_eq!(render(&refs(&items(&["a", "b"])), &t, &clock()), "1/0/2\n2/1/2");
}

#[test]
fn trim_can_be_switched_off() {
    let raw = vec![ClipItem::new(1, ClipKind::text("  x  "), 0, None)];
    assert_eq!(render(&refs(&raw), &Template::default(), &clock()), "x");
    let t = Template { trim_items: false, ..Default::default() };
    assert_eq!(render(&refs(&raw), &t, &clock()), "  x  ");
}

#[test]
fn content_containing_a_token_is_never_re_expanded() {
    let raw = vec![ClipItem::new(1, ClipKind::text("literal {index} here"), 0, None)];
    let t = Template { item_format: "{index}: {content}".into(), ..Default::default() };
    assert_eq!(render(&refs(&raw), &t, &clock()), "1: literal {index} here");
}

#[test]
fn unknown_tokens_survive_verbatim() {
    let t = Template { item_format: "{nope} {content}".into(), ..Default::default() };
    assert_eq!(render(&refs(&items(&["a"])), &t, &clock()), "{nope} a");
}

#[test]
fn doubled_braces_are_literal() {
    let t = Template { item_format: "{{{content}}}".into(), ..Default::default() };
    assert_eq!(render(&refs(&items(&["a"])), &t, &clock()), "{a}");
}

#[test]
fn unterminated_brace_is_passed_through() {
    let t = Template { item_format: "{oops {content}".into(), ..Default::default() };
    assert_eq!(render(&refs(&items(&["a"])), &t, &clock()), "{oops a");
}

#[test]
fn missing_source_renders_empty_not_none() {
    let t = Template { item_format: "[{source}]{content}".into(), ..Default::default() };
    assert_eq!(render(&refs(&items(&["a"])), &t, &clock()), "[]a");
}

#[test]
fn images_render_through_their_placeholder() {
    let raw = vec![ClipItem::new(
        1,
        ClipKind::Image { image: ImagePayload::raw(800, 600, vec![]) },
        0,
        None,
    )];
    assert_eq!(render(&refs(&raw), &Template::default(), &clock()), "[image 800x600]");
}

#[test]
fn file_captures_expand_every_path_part() {
    let raw = vec![ClipItem::new(
        1,
        ClipKind::Files { paths: vec![String::from("/tmp/notes.md")] },
        0,
        None,
    )];
    let t = Template { file_format: "{name} ({ext}) in {dir}".into(), ..Default::default() };
    assert_eq!(render(&refs(&raw), &t, &clock()), "notes.md (md) in /tmp");
}

#[test]
fn multiple_files_in_one_capture_use_the_file_separator() {
    let raw = vec![ClipItem::new(
        1,
        ClipKind::Files { paths: vec![String::from("a.txt"), String::from("b.txt")] },
        0,
        None,
    )];
    let t = Template { file_separator: " | ".into(), ..Default::default() };
    assert_eq!(render(&refs(&raw), &t, &clock()), "a.txt | b.txt");
}

#[test]
fn prefix_and_suffix_see_the_count() {
    let t = Template {
        prefix: "{count} items:\\n".into(),
        suffix: "\\n(end)".into(),
        ..Default::default()
    };
    assert_eq!(render(&refs(&items(&["a", "b"])), &t, &clock()), "2 items:\na\nb\n(end)");
}

#[test]
fn every_preset_renders_without_leftover_tokens() {
    for p in presets() {
        let out = render(&refs(&items(&["a", "b"])), &p.template, &clock());
        assert!(!out.contains("{content}"), "preset {} left a token", p.id);
        assert!(out.contains('a') && out.contains('b'), "preset {} lost content", p.id);
    }
}

#[test]
fn unescape_leaves_unknown_escapes_alone() {
    assert_eq!(unescape("a\\qb"), "a\\qb");
    assert_eq!(unescape("a\\\\b"), "a\\b");
    assert_eq!(unescape("trailing\\"), "trailing\\");
}

#[test]
fn a_doubled_closing_brace_is_one_brace() {
    let t = Template { item_format: "}}{content}}}".into(), ..Default::default() };
    assert_eq!(render(&refs(&items(&["a"])), &t, &clock()), "}a}");
}

#[test]
fn plain_text_in_a_template_is_kept_as_it_is() {
    let t = Template { item_format: "- {content} -".into(), ..Default::default() };
    assert_eq!(render(&refs(&items(&["x"])), &t, &clock()), "- x -");
    assert_eq!(unescape("no escapes here"), "no escapes here");
}

#[test]
fn a_value_with_braces_is_inserted_as_it_is() {
    let raw = vec![ClipItem::new(1, ClipKind::text("{{content}}"), 0, None)];
    let t = Template { item_format: "{content}".into(), ..Default::default() };
    assert_eq!(render(&refs(&raw), &t, &clock()), "{{content}}");
}

#[test]
fn the_kind_and_source_tokens_are_filled() {
    let raw = vec![ClipItem::new(1, ClipKind::text("a"), 0, Some("Editor".into()))];
    let t = Template { item_format: "{kind}:{source}:{content}".into(), ..Default::default() };
    assert_eq!(render(&refs(&raw), &t, &clock()), "text:Editor:a");
}

#[test]
fn item_times_are_written_from_the_capture_instant() {
    // 2023-11-14 22:13:20 UTC; the reading puts that moment two hours east.
    let list = vec![ClipItem::new(1, ClipKind::text("x"), 1_700_000_000_000, None)];
    let t = Template {
        prefix: "{time} ".into(),
        item_format: "{date}|{time}".into(),
        date_format: "%Y-%m-%d".into(),
        time_format: "%H:%M".into(),
        ..Default::default()
    };
    let reading = ClockReading {
        now: ZonedInstant { secs: 0, nanos: 0, offset: 0 },
        offsets: vec![(1_700_000_000_000, 7200)],
    };
    assert_eq!(render(&refs(&list), &t, &reading), "00:00 2023-11-15|00:13");
}

#[test]
fn a_capture_the_zone_could_not_place_is_stamped_now() {
    let list = vec![ClipItem::new(1, ClipKind::text("x"), 5, None)];
    let t = Template { item_format: "{time}".into(), time_format: "%s".into(), ..Default::default() };
    assert_eq!(render(&refs(&list), &t, &clock()), "1700000000");
}

#[test]
fn bookend_time_and_date_come_from_one_reading() {
    let t = Template {
        prefix: "{time}/{date}:".into(),
        time_format: "%s".into(),
        date_format: "%Y".into(),
        ..Default::default()
    };
    assert_eq!(render(&[], &t, &clock()), "1700000000/2023:");
}

#[test]
fn rendering_twice_without_clock_tokens_gives_the_same_block() {
    let list = vec![
        ClipItem::new(1, ClipKind::text("a"), 5, None),
        ClipItem::new(2, ClipKind::Files { paths: vec!["/tmp/x.txt".into()] }, 6, None),
    ];
    let t = Template { file_format: "{name}|{stem}|{ext}|{dir}".into(), ..Default::default() };
    let first = render(&refs(&list), &t, &clock());
    assert_eq!(first, "a\nx.txt|x|txt|/tmp");
    assert_eq!(render(&refs(&list), &t, &clock()), first);
}

fn clock() -> ClockReading {
    ClockReading {
        now: ZonedInstant { secs: 1_700_000_000, nanos: 0, offset: 0 },
        offsets: Vec::new(),
    }
}
