use incredibulk_core::actions::{
    add_line, archive_session, cancel_session, capture_notice, carries_an_image,
    clear_history, close_after_flush, edit_item, forget, item_text, open_session,
    finish_flush, paste_wait_ms, plan_flush, plan_replay, plan_replay_last, preview_block, replay_notice,
    restore_wait_ms, sample_items, undo_last, FlushPlan, Notice,
};
use incredibulk_core::{ClockReading, ZonedInstant};
use incredibulk_core::{
    CaptureOutcome, ClipItem, ClipKind, Config, History, ImagePayload, PasteFormat,
    SessionStatus, Template,
};

fn items(texts: &[&str]) -> Vec<ClipItem> {
    texts
        .iter()
        .enumerate()
        .map(|(i, t)| ClipItem::new(i as u64 + 1, ClipKind::text(t), 0, None))
        .collect()
}

fn live(texts: &[&str]) -> SessionStatus {
    let mut st = SessionStatus::new();
    let s = st.start(Config::default().capture);
    for t in texts {
        s.capture(ClipKind::text(t), None, 0);
    }
    st
}

fn image(png: Vec<u8>) -> ClipKind {
    let mut image = ImagePayload::raw(2, 2, Vec::new());
    image.png = png;
    ClipKind::Image { image }
}

#[test]
fn notices_carry_their_level() {
    let n = Notice::info("hi".into());
    assert_eq!((n.level, n.text.as_str()), ("info", "hi"));
    assert_eq!(Notice::warn("w".into()).level, "warn");
    assert_eq!(Notice::error("e".into()).level, "error");
    assert_eq!(Notice::from_error("boom".into()).level, "error");
}

#[test]
fn every_rejected_capture_is_explained() {
    let n = capture_notice(&CaptureOutcome::Appended { id: 3, count: 3 }).expect("said");
    assert_eq!((n.level, n.text.as_str()), ("info", "Captured 3"));
    let n = capture_notice(&CaptureOutcome::Duplicate).expect("said");
    assert_eq!((n.level, n.text.as_str()), ("warn", "Already in this session"));
    let n = capture_notice(&CaptureOutcome::Full { limit: 5 }).expect("said");
    assert_eq!(n.text, "Session is full at 5 items");
    let n = capture_notice(&CaptureOutcome::Filtered { kind: "image".into() }).expect("said");
    assert_eq!(n.text, "Skipped: image capture is switched off");
    assert!(capture_notice(&CaptureOutcome::Blank).is_none());
    assert!(capture_notice(&CaptureOutcome::Inactive).is_none());
}

#[test]
fn opening_a_session_can_start_from_the_clipboard() {
    let mut c = Config::default();
    let mut st = SessionStatus::new();
    let n = open_session(&mut st, &c, Some(ClipKind::text("already there")), None);
    assert_eq!(n.text, "Session open. Copy away.");
    assert!(st.session().expect("open").is_empty());

    c.behavior.capture_clipboard_on_start = true;
    let n = open_session(&mut st, &c, Some(ClipKind::text("already there")), Some("Editor".into()));
    assert_eq!(n.text, "Session open, starting from the clipboard");
    let s = st.session().expect("open");
    assert_eq!(s.len(), 1);
    assert_eq!(s.items()[0].source.as_deref(), Some("Editor"));

    let n = open_session(&mut st, &c, Some(ClipKind::text("  ")), None);
    assert_eq!(n.text, "Session open. Copy away.", "a blank clipboard seeds nothing");
}

#[test]
fn discarding_says_how_much_went() {
    let mut st = live(&["a", "b"]);
    let n = cancel_session(&mut st);
    assert_eq!(n.text, "Session discarded (2 items)");
    assert!(!st.is_active());
    assert_eq!(cancel_session(&mut st).text, "Session discarded (0 items)");
}

#[test]
fn undo_names_what_it_removed() {
    let mut st = live(&["first", "second\nline"]);
    let n = undo_last(&mut st);
    assert_eq!((n.level, n.text.as_str()), ("info", "Removed second line"));
    assert_eq!(st.session().expect("open").len(), 1);
    undo_last(&mut st);
    let n = undo_last(&mut st);
    assert_eq!((n.level, n.text.as_str()), ("warn", "Nothing to undo"));
    let mut idle = SessionStatus::new();
    assert_eq!(undo_last(&mut idle).text, "Nothing to undo");
}

#[test]
fn edits_report_refusals_and_removals() {
    let mut idle = SessionStatus::new();
    assert_eq!(edit_item(&mut idle, 1, "x".into()).unwrap_err(), "No session is open.");

    let mut st = live(&["a", "b"]);
    assert!(matches!(edit_item(&mut st, 1, "fixed".into()), Ok(None)));
    let n = edit_item(&mut st, 1, "   ".into()).expect("applied").expect("said");
    assert_eq!(n.text, "Emptied, so the fragment was removed");
    assert_eq!(
        edit_item(&mut st, 1, "x".into()).unwrap_err(),
        "that fragment is no longer in the session"
    );
    st.session_mut().expect("open").capture(image(vec![1]), None, 0);
    assert_eq!(edit_item(&mut st, 3, "x".into()).unwrap_err(), "only text fragments can be edited");
}

#[test]
fn typed_lines_are_refused_with_a_reason() {
    let mut idle = SessionStatus::new();
    assert_eq!(add_line(&mut idle, "x".into()).unwrap_err(), "No session is open.");
    let mut c = Config::default();
    c.capture.max_items = 1;
    let mut st = SessionStatus::new();
    st.start(c.capture);
    assert_eq!(add_line(&mut st, "  ".into()).unwrap_err(), "Nothing to add.");
    assert_eq!(add_line(&mut st, "one".into()), Ok(()));
    assert_eq!(add_line(&mut st, "two".into()).unwrap_err(), "The session is full at 1 items.");
}

#[test]
fn the_full_text_of_a_fragment_is_fetched_by_id() {
    let mut st = live(&["a long fragment"]);
    assert_eq!(item_text(&st, 1).as_deref(), Some("a long fragment"));
    assert_eq!(item_text(&st, 2), None);
    st.session_mut().expect("open").capture(image(vec![]), None, 0);
    assert_eq!(item_text(&st, 2), None, "an image has no text");
    assert_eq!(item_text(&SessionStatus::new(), 1), None);
}

#[test]
fn a_flush_with_nothing_collecting_falls_back_to_the_history() {
    let c = Config::default();
    assert!(matches!(plan_flush(&SessionStatus::new(), &c, &clock()), FlushPlan::ReplayLast));
    assert!(matches!(plan_flush(&live(&[]), &c, &clock()), FlushPlan::ReplayLast));
}

#[test]
fn an_all_unticked_session_is_refused_rather_than_replaced() {
    let mut st = live(&["a"]);
    st.session_mut().expect("open").set_included(1, false);
    match plan_flush(&st, &Config::default(), &clock()) {
        FlushPlan::Refused(e) => {
            assert_eq!(e, "Every fragment is unticked, so there is nothing to paste.")
        }
        other => panic!("expected a refusal, got {other:?}"),
    }
}

#[test]
fn a_flush_pastes_the_ticked_fragments_and_archives_them() {
    let mut st = live(&["a", "b", "c"]);
    st.session_mut().expect("open").set_included(2, false);
    st.session_mut().expect("open").set_name("notes");
    let mut c = Config::default();
    c.behavior.paste_delay_ms = 9_000;
    match plan_flush(&st, &c, &clock()) {
        FlushPlan::Paste(job) => {
            assert_eq!(job.block.plain, "a\nc");
            assert!(job.block.rich.is_none(), "no image, no markup");
            assert_eq!(job.block.count, 2);
            assert_eq!(job.block.delay_ms, 5_000);
            assert!(job.block.auto_paste);
            assert_eq!(job.archive.len(), 2);
            assert_eq!(job.name.as_deref(), Some("notes"));
            assert!(!job.keep_open);
            assert!(job.restore);
        }
        other => panic!("expected a paste, got {other:?}"),
    }
    c.behavior.keep_history = false;
    match plan_flush(&st, &c, &clock()) {
        FlushPlan::Paste(job) => assert!(job.archive.is_empty()),
        other => panic!("expected a paste, got {other:?}"),
    }
}

#[test]
fn an_image_makes_the_block_rich_unless_plain_is_asked_for() {
    let mut st = live(&["caption"]);
    st.session_mut().expect("open").capture(image(vec![1, 2, 3]), None, 0);
    let mut c = Config::default();
    match plan_flush(&st, &c, &clock()) {
        FlushPlan::Paste(job) => {
            assert_eq!(job.block.plain, "caption\n[image 2x2]");
            let html = job.block.rich.expect("formatted");
            assert!(html.contains("data:image/png;base64,AQID"));
        }
        other => panic!("expected a paste, got {other:?}"),
    }
    c.behavior.paste_format = PasteFormat::Plain;
    match plan_flush(&st, &c, &clock()) {
        FlushPlan::Paste(job) => assert!(job.block.rich.is_none()),
        other => panic!("expected a paste, got {other:?}"),
    }
}

#[test]
fn closing_after_a_flush_follows_the_setting() {
    let mut st = live(&["a"]);
    close_after_flush(&mut st, true);
    assert!(st.is_active());
    close_after_flush(&mut st, false);
    assert!(!st.is_active());
}

#[test]
fn paste_timing_never_waits_zero_and_restores_late_enough() {
    assert_eq!(paste_wait_ms(0), 1);
    assert_eq!(paste_wait_ms(120), 120);
    assert_eq!(restore_wait_ms(10), 240);
    assert_eq!(restore_wait_ms(120), 360);
}

#[test]
fn a_replay_needs_ticks_that_still_exist() {
    let c = Config::default();
    let mut h = History::default();
    assert_eq!(plan_replay(&h, &[], &c, &clock()).unwrap_err(), "Nothing is ticked.");
    assert_eq!(
        plan_replay(&h, &[4], &c, &clock()).unwrap_err(),
        "Those sessions are no longer in the history."
    );
    let a = h.record(items(&["a", "b"]), None, 1).expect("archived");
    let b = h.record(items(&["c"]), None, 2).expect("archived");
    let block = plan_replay(&h, &[b, a], &c, &clock()).expect("a block");
    assert_eq!(block.plain, "a\nb\nc");
    assert_eq!(block.count, 3);
}

#[test]
fn a_replay_from_the_shortcut_says_which_rule_applied() {
    let mut h = History::default();
    assert_eq!(
        plan_replay_last(&h, &[]).unwrap_err(),
        "Nothing has been captured yet, and there is no earlier session to repeat."
    );
    let a = h.record(items(&["a"]), Some("quotes".into()), 1).expect("archived");
    let b = h.record(items(&["b"]), None, 2).expect("archived");
    assert_eq!(plan_replay_last(&h, &[]).expect("b"), (vec![b], "Pasted the last session again".to_string()));
    assert_eq!(plan_replay_last(&h, &[b]).expect("b"), (vec![b], "Pasted the ticked session".to_string()));
    assert_eq!(plan_replay_last(&h, &[a]).expect("a"), (vec![a], "Pasted \"quotes\"".to_string()));
    assert_eq!(plan_replay_last(&h, &[a, b]).expect("both"), (vec![a, b], "Pasted 2 ticked sessions".to_string()));
    h.remove(b);
    assert_eq!(plan_replay_last(&h, &[b]).expect("a"), (vec![a], "Pasted \"quotes\" again".to_string()));
    assert_eq!(replay_notice("Pasted \"quotes\" again", 1).text, "Pasted \"quotes\" again (1)");
}

#[test]
fn archiving_applies_the_limit_and_skips_empty_sessions() {
    let mut h = History::default();
    for i in 0..4 {
        h.record(items(&[&format!("s{i}")]), None, i);
    }
    assert_eq!(archive_session(&mut h, 2, Vec::new(), None), None);
    assert_eq!(h.len(), 4, "nothing kept, nothing trimmed");
    assert_eq!(archive_session(&mut h, 2, items(&["new"]), Some("n".into())), Some(5));
    assert_eq!(h.len(), 2);
    assert_eq!(h.limit(), 2);
    assert_eq!(h.latest().and_then(|e| e.name.as_deref()), Some("n"));
}

#[test]
fn forgotten_sessions_leave_the_selection_too() {
    let mut h = History::default();
    let a = h.record(items(&["a"]), None, 1).expect("archived");
    let b = h.record(items(&["b"]), None, 2).expect("archived");
    let c = h.record(items(&["c"]), None, 3).expect("archived");
    let mut selection = vec![c, a, b];
    forget(&mut h, &mut selection, &[a, 99, c]);
    assert_eq!(h.len(), 1);
    assert!(h.get(b).is_some());
    assert_eq!(selection, vec![b]);
    let n = clear_history(&mut h, &mut selection);
    assert_eq!(n.text, "History cleared");
    assert!(h.is_empty() && selection.is_empty());
}

#[test]
fn the_preview_prefers_the_live_stack_over_samples() {
    let t = Template::default();
    assert_eq!(preview_block(&SessionStatus::new(), &t, &clock()), "first fragment\nsecond fragment\nthird fragment");
    assert_eq!(preview_block(&live(&[]), &t, &clock()), "first fragment\nsecond fragment\nthird fragment");
    assert_eq!(preview_block(&live(&["mine"]), &t, &clock()), "mine");
    let s = sample_items();
    assert_eq!(s.len(), 3);
    assert_eq!(s[2].source.as_deref(), Some("Terminal"));
}

#[test]
fn only_an_image_needs_the_formatted_flavour() {
    let text = items(&["a"]);
    let refs: Vec<&ClipItem> = text.iter().collect();
    assert!(!carries_an_image(&refs));
    let pic = ClipItem::new(2, image(vec![]), 0, None);
    let mixed: Vec<&ClipItem> = vec![&text[0], &pic];
    assert!(carries_an_image(&mixed));
}

fn clock() -> ClockReading {
    ClockReading {
        now: ZonedInstant { secs: 1_700_000_000, nanos: 0, offset: 0 },
        offsets: Vec::new(),
    }
}

fn planned(st: &SessionStatus, c: &Config) -> incredibulk_core::actions::FlushJob {
    match plan_flush(st, c, &clock()) {
        FlushPlan::Paste(job) => job,
        other => panic!("expected a paste, got {other:?}"),
    }
}

#[test]
fn a_failed_write_changes_nothing() {
    let mut st = live(&["a", "b"]);
    let mut h = History::default();
    let c = Config::default();
    let job = planned(&st, &c);
    let (count, block) = finish_flush(&mut st, &mut h, &c, &clock(), job, false);
    assert_eq!(count, None);
    assert_eq!(block.plain, "a\nb");
    assert!(st.is_active());
    assert_eq!(h.len(), 0);
}

#[test]
fn a_written_flush_archives_and_closes_as_the_settings_say() {
    let mut st = live(&["a", "b", "c"]);
    st.session_mut().expect("open").set_included(2, false);
    let mut h = History::default();
    let c = Config::default();
    let job = planned(&st, &c);
    let (count, block) = finish_flush(&mut st, &mut h, &c, &clock(), job, true);
    assert_eq!(count, Some(2));
    assert_eq!(block.plain, "a\nc");
    assert!(!st.is_active());
    assert_eq!(h.len(), 1);
    assert_eq!(h.latest().expect("archived").items.len(), 2);

    let mut st = live(&["x"]);
    let mut h = History::default();
    let mut c = Config::default();
    c.behavior.keep_history = false;
    c.behavior.keep_open_after_flush = true;
    let job = planned(&st, &c);
    let (count, _) = finish_flush(&mut st, &mut h, &c, &clock(), job, true);
    assert_eq!(count, Some(1));
    assert!(st.is_active());
    assert_eq!(h.len(), 0);
}
