use incredibulk_core::history::{HistoryEntry, MAX_ARCHIVED_IMAGE_BYTES};
use incredibulk_core::{replay_target, ClipItem, ClipKind, History, ImagePayload, Template};
use incredibulk_core::{ClockReading, ZonedInstant};

fn items(texts: &[&str]) -> Vec<ClipItem> {
    texts
        .iter()
        .enumerate()
        .map(|(i, t)| ClipItem::new(i as u64 + 1, ClipKind::text(t), 0, None))
        .collect()
}

fn ids_of(h: &History) -> Vec<u64> {
    h.entries().iter().map(|e| e.id).collect()
}

/// The history as it comes back after being saved and loaded: the same
/// entries, next id and limit.
fn reloaded(h: &History) -> History {
    let (entries, next_id, limit) = h.parts();
    let copies: Vec<HistoryEntry> = entries.iter().map(|e| (*e).clone()).collect();
    History::restore(copies, next_id, limit)
}

#[test]
fn search_reads_beyond_previews_and_matches_words_across_fields() {
    let mut h = History::default();
    let long_text = format!("{} Décision finale", "intro ".repeat(50));
    let mut fragments = items(&[&long_text, "second fragment"]);
    fragments[0].source = Some("Firefox".into());
    h.record(fragments, Some("Projet été".into()), 1);
    h.record(items(&["unrelated"]), None, 2);

    assert!(!h.views()[1].preview.contains("Décision"));
    assert_eq!(h.search("  ÉTÉ\tDÉCISION firefox\nsecond "), vec![1]);
    assert!(h.search("décision missing").is_empty());
    assert_eq!(h.search(" \n "), vec![2, 1]);
    assert_eq!(h.search(""), vec![2, 1]);
}

#[test]
fn search_includes_full_paths_and_image_descriptions_but_not_image_bytes() {
    let mut h = History::default();
    h.record(
        vec![ClipItem::new(
            1,
            ClipKind::Files { paths: vec!["/projects/private/report.pdf".into()] },
            0,
            None,
        )],
        None,
        1,
    );
    let mut image = ImagePayload::raw(640, 480, Vec::new());
    image.png = b"secretpixels".to_vec();
    image.thumbnail = "secretthumbnail".into();
    h.record(vec![ClipItem::new(1, ClipKind::Image { image }, 0, None)], None, 2);

    assert_eq!(h.search("/PROJECTS/PRIVATE PDF"), vec![1]);
    assert_eq!(h.search("IMAGE 640x480"), vec![2]);
    assert!(h.search("secret").is_empty());
}

#[test]
fn search_tracks_renames_deletions_and_persisted_history() {
    let mut h = History::default();
    h.record(items(&["shared"]), Some("old name".into()), 1);
    h.record(items(&["shared"]), None, 2);
    assert_eq!(h.search("shared"), vec![2, 1]);
    h.rename(1, "new name");
    assert!(h.search("old").is_empty());
    let mut loaded = reloaded(&h);
    assert_eq!(loaded.search("new shared"), vec![1]);
    loaded.remove(1);
    assert!(loaded.search("new").is_empty());
    loaded.clear();
    assert!(loaded.search("").is_empty());
}

#[test]
fn a_flushed_session_is_archived() {
    let mut h = History::default();
    let id = h.record(items(&["a", "b"]), None, 1_000).expect("archived");
    assert_eq!(h.len(), 1);
    assert_eq!(h.get(id).expect("present").len(), 2);
}

#[test]
fn an_empty_session_is_not_worth_keeping() {
    let mut h = History::default();
    assert_eq!(h.record(Vec::new(), None, 0), None);
    assert!(h.is_empty());
}

#[test]
fn the_newest_session_comes_first() {
    let mut h = History::default();
    h.record(items(&["old"]), None, 1);
    h.record(items(&["new"]), None, 2);
    assert_eq!(ids_of(&h), vec![2, 1]);
}

#[test]
fn the_oldest_session_falls_off_the_end() {
    let mut h = History::with_limit(3);
    for i in 0..5 {
        h.record(items(&[&format!("session {i}")]), None, i as u64);
    }
    assert_eq!(h.len(), 3);
    assert_eq!(ids_of(&h), vec![5, 4, 3], "the three most recent survive");
}

#[test]
fn lowering_the_limit_trims_immediately() {
    let mut h = History::default();
    for i in 0..10 {
        h.record(items(&[&format!("s{i}")]), None, i as u64);
    }
    h.set_limit(4);
    assert_eq!(h.len(), 4);
}

#[test]
fn a_limit_of_zero_is_refused() {
    let mut h = History::with_limit(0);
    assert_eq!(h.limit(), 1);
    h.set_limit(0);
    assert_eq!(h.limit(), 1);
}

#[test]
fn ids_are_not_reused_after_the_cap_drops_entries() {
    let mut h = History::with_limit(2);
    h.record(items(&["a"]), None, 0);
    h.record(items(&["b"]), None, 0);
    let third = h.record(items(&["c"]), None, 0).expect("archived");
    assert_eq!(third, 3);
    assert!(h.get(1).is_none(), "the first was dropped");
}

#[test]
fn the_latest_session_is_the_newest_one() {
    let mut h = History::default();
    assert!(h.latest().is_none());
    h.record(items(&["old"]), None, 1);
    let newest = h.record(items(&["new"]), None, 2).expect("archived");
    assert_eq!(h.latest().map(|e| e.id), Some(newest));
}

#[test]
fn the_latest_session_follows_a_deletion() {
    let mut h = History::default();
    let first = h.record(items(&["a"]), None, 1).expect("archived");
    let second = h.record(items(&["b"]), None, 2).expect("archived");
    h.remove(second);
    assert_eq!(h.latest().map(|e| e.id), Some(first));
}

#[test]
fn a_selection_drops_ids_that_are_gone() {
    let mut h = History::default();
    let a = h.record(items(&["a"]), None, 1).expect("archived");
    let b = h.record(items(&["b"]), None, 2).expect("archived");
    h.remove(a);
    assert_eq!(h.retain_existing(&[a, b, 999]), vec![b]);
}

#[test]
fn a_selection_comes_back_in_the_order_the_sessions_happened() {
    let mut h = History::default();
    let a = h.record(items(&["a"]), None, 1).expect("archived");
    let b = h.record(items(&["b"]), None, 2).expect("archived");
    assert_eq!(h.retain_existing(&[b, a]), vec![a, b]);
}

#[test]
fn an_empty_selection_stays_empty() {
    let mut h = History::default();
    h.record(items(&["a"]), None, 1);
    assert!(h.retain_existing(&[]).is_empty());
}

#[test]
fn with_nothing_ticked_a_paste_repeats_the_newest() {
    let mut h = History::default();
    h.record(items(&["old"]), None, 1);
    let newest = h.record(items(&["new"]), None, 2).expect("archived");
    assert_eq!(replay_target(&h, &[]), vec![newest]);
}

#[test]
fn ticked_sessions_beat_the_newest() {
    let mut h = History::default();
    let first = h.record(items(&["a"]), None, 1).expect("archived");
    h.record(items(&["b"]), None, 2);
    assert_eq!(replay_target(&h, &[first]), vec![first]);
}

#[test]
fn every_ticked_session_is_pasted_oldest_first() {
    let mut h = History::default();
    let a = h.record(items(&["a"]), None, 1).expect("archived");
    let b = h.record(items(&["b"]), None, 2).expect("archived");
    let c = h.record(items(&["c"]), None, 3).expect("archived");
    assert_eq!(replay_target(&h, &[c, a]), vec![a, c]);
    assert_eq!(h.render(&replay_target(&h, &[c, a]), &Template::default(), &clock()), "a\nc");
    let _ = b;
}

#[test]
fn ticks_pointing_at_deleted_sessions_fall_back_to_the_newest() {
    let mut h = History::default();
    let gone = h.record(items(&["a"]), None, 1).expect("archived");
    let newest = h.record(items(&["b"]), None, 2).expect("archived");
    h.remove(gone);
    assert_eq!(replay_target(&h, &[gone]), vec![newest]);
}

#[test]
fn a_partly_stale_selection_keeps_what_is_left() {
    let mut h = History::default();
    let gone = h.record(items(&["a"]), None, 1).expect("archived");
    let kept = h.record(items(&["b"]), None, 2).expect("archived");
    h.record(items(&["c"]), None, 3);
    h.remove(gone);
    assert_eq!(replay_target(&h, &[gone, kept]), vec![kept]);
}

#[test]
fn an_empty_history_gives_nothing_to_paste() {
    let h = History::default();
    assert!(replay_target(&h, &[]).is_empty());
    assert!(replay_target(&h, &[1, 2, 3]).is_empty());
}

#[test]
fn removing_one_leaves_the_rest() {
    let mut h = History::default();
    let a = h.record(items(&["a"]), None, 0).expect("archived");
    h.record(items(&["b"]), None, 0);
    assert!(h.remove(a));
    assert!(!h.remove(a));
    assert_eq!(h.len(), 1);
}

#[test]
fn replaying_one_session_gives_back_its_block() {
    let mut h = History::default();
    let id = h.record(items(&["one", "two"]), None, 0).expect("archived");
    assert_eq!(h.render(&[id], &Template::default(), &clock()), "one\ntwo");
}

#[test]
fn several_sessions_combine_oldest_first() {
    let mut h = History::default();
    let first = h.record(items(&["a"]), None, 1).expect("archived");
    let second = h.record(items(&["b"]), None, 2).expect("archived");
    assert_eq!(h.render(&[second, first], &Template::default(), &clock()), "a\nb");
    assert_eq!(h.render(&[first, second], &Template::default(), &clock()), "a\nb");
}

#[test]
fn combining_renumbers_across_the_whole_block() {
    let mut h = History::default();
    let a = h.record(items(&["a", "b"]), None, 1).expect("archived");
    let b = h.record(items(&["c"]), None, 2).expect("archived");
    let t = Template { item_format: "{index}/{count} {content}".into(), ..Default::default() };
    assert_eq!(h.render(&[a, b], &t, &clock()), "1/3 a\n2/3 b\n3/3 c");
}

#[test]
fn selecting_nothing_renders_nothing() {
    let mut h = History::default();
    h.record(items(&["a"]), None, 0);
    assert_eq!(h.render(&[], &Template::default(), &clock()), "");
}

#[test]
fn an_unknown_id_is_skipped_rather_than_failing() {
    let mut h = History::default();
    let id = h.record(items(&["a"]), None, 0).expect("archived");
    assert_eq!(h.render(&[id, 999], &Template::default(), &clock()), "a");
}

#[test]
fn archived_images_drop_their_pixels_but_keep_the_png() {
    let mut image = ImagePayload::raw(4, 4, vec![7; 64]);
    image.png = vec![1, 2, 3];
    let item = ClipItem::new(1, ClipKind::Image { image }, 0, None);

    let mut h = History::default();
    let id = h.record(vec![item], None, 0).expect("archived");
    let stored = h.get(id).expect("present");
    match &stored.items[0].kind {
        ClipKind::Image { image } => {
            assert!(image.rgba.is_empty(), "raw pixels are never archived");
            assert_eq!(image.png, vec![1, 2, 3]);
        }
        _ => panic!("expected an image"),
    }
}

#[test]
fn an_oversized_image_keeps_only_its_description() {
    let mut image = ImagePayload::raw(4, 4, Vec::new());
    image.png = vec![0; MAX_ARCHIVED_IMAGE_BYTES + 1];
    image.thumbnail = "data:image/png;base64,AA".into();
    let item = ClipItem::new(1, ClipKind::Image { image }, 0, None);

    let mut h = History::default();
    let id = h.record(vec![item], None, 0).expect("archived");
    match &h.get(id).expect("present").items[0].kind {
        ClipKind::Image { image } => {
            assert!(image.png.is_empty());
            assert!(image.thumbnail.is_empty());
            assert_eq!((image.width, image.height), (4, 4), "it still says what it was");
        }
        _ => panic!("expected an image"),
    }
}

#[test]
fn views_describe_what_is_in_each_session() {
    let mut h = History::default();
    h.record(items(&["hello", "world"]), None, 1_700_000_000_000);
    let views = h.views();
    assert_eq!(views.len(), 1);
    assert_eq!(views[0].count, 2);
    assert!(views[0].preview.contains("hello"));
    assert_eq!(views[0].images, 0);
}

#[test]
fn a_history_survives_a_round_trip_through_its_parts() {
    let mut h = History::with_limit(7);
    h.record(items(&["kept"]), None, 42);

    let back = reloaded(&h);
    assert_eq!(back.len(), 1);
    assert_eq!(back.limit(), 7);
    assert_eq!(back.render(&[1], &Template::default(), &clock()), "kept");
}

#[test]
fn a_view_joins_previews_with_a_middle_dot_and_counts_kinds() {
    let mut h = History::default();
    let mut image = ImagePayload::raw(3, 2, Vec::new());
    image.thumbnail = "data:image/png;base64,AA".into();
    h.record(
        vec![
            ClipItem::new(1, ClipKind::text("  first\nline "), 0, None),
            ClipItem::new(2, ClipKind::Image { image }, 0, None),
            ClipItem::new(3, ClipKind::Files { paths: vec!["x.txt".into()] }, 0, None),
        ],
        Some("named".into()),
        9,
    );
    let v = &h.views()[0];
    assert_eq!(v.preview, "first line \u{b7} Image 3x2 \u{b7} x.txt");
    assert_eq!((v.images, v.files, v.count), (1, 1, 3));
    assert_eq!(v.thumbnail.as_deref(), Some("data:image/png;base64,AA"));
    assert_eq!(v.name.as_deref(), Some("named"));
    assert_eq!(v.ended_at_ms, 9);
}

#[test]
fn a_long_view_preview_is_cut_to_160_characters() {
    let mut h = History::default();
    let fragments: Vec<String> = (0..10).map(|i| format!("fragment number {i} with words")).collect();
    let refs: Vec<&str> = fragments.iter().map(|s| s.as_str()).collect();
    h.record(items(&refs), None, 0);
    let p = &h.views()[0].preview;
    assert_eq!(p.chars().count(), 160);
    assert!(p.ends_with('\u{2026}'));
}

#[test]
fn renaming_trims_and_a_blank_name_clears() {
    let mut h = History::default();
    let id = h.record(items(&["a"]), None, 0).expect("archived");
    assert!(h.rename(id, "  quotes for the email  "));
    assert_eq!(h.get(id).and_then(|e| e.name.as_deref()), Some("quotes for the email"));
    assert!(h.rename(id, "   "));
    assert_eq!(h.get(id).and_then(|e| e.name.as_deref()), None);
    assert!(!h.rename(999, "x"));
}

#[test]
fn combined_gives_the_fragments_oldest_session_first() {
    let mut h = History::default();
    let a = h.record(items(&["a", "b"]), None, 1).expect("archived");
    let b = h.record(items(&["c"]), None, 2).expect("archived");
    let texts: Vec<&str> = h.combined(&[b, a]).iter().filter_map(|i| i.text()).collect();
    assert_eq!(texts, vec!["a", "b", "c"]);
}

#[test]
fn recorded_sessions_never_share_an_id() {
    let mut h = History::default();
    h.set_limit(2);
    for n in 0..5u64 {
        h.record(items(&["x"]), None, n);
    }
    let ids = ids_of(&h);
    assert_eq!(ids.len(), 2);
    assert_ne!(ids[0], ids[1]);
    let before = h.len();
    assert!(h.remove(ids[0]));
    assert_eq!(h.len(), before - 1);
}

fn clock() -> ClockReading {
    ClockReading {
        now: ZonedInstant { secs: 1_700_000_000, nanos: 0, offset: 0 },
        offsets: Vec::new(),
    }
}
