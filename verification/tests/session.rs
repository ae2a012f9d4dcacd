use incredibulk_core::session::EditError;
use incredibulk_core::{ClockReading, ZonedInstant};
use incredibulk_core::{
    CaptureOutcome, CapturePolicy, ClipKind, ImagePayload, MoveDirection, Session, SessionStatus,
    Template,
};

fn policy() -> CapturePolicy {
    CapturePolicy::default()
}

fn sess() -> Session {
    Session::start(policy(), 1_000)
}

fn cap(s: &mut Session, text: &str) -> CaptureOutcome {
    s.capture(ClipKind::text(text), None, 1_000)
}

#[test]
fn captures_accumulate_in_order() {
    let mut s = sess();
    cap(&mut s, "one");
    cap(&mut s, "two");
    cap(&mut s, "three");
    assert_eq!(s.len(), 3);
    assert_eq!(s.render(&Template::default(), &clock()), "one\ntwo\nthree");
}

#[test]
fn blank_captures_are_rejected_not_stored() {
    let mut s = sess();
    assert_eq!(cap(&mut s, "   \n "), CaptureOutcome::Blank);
    assert!(s.is_empty());
}

#[test]
fn dedupe_rejects_repeat_content() {
    let mut s = sess();
    assert!(cap(&mut s, "same").accepted());
    assert_eq!(cap(&mut s, "same"), CaptureOutcome::Duplicate);
    assert_eq!(s.len(), 1);
}

#[test]
fn dedupe_off_keeps_repeats() {
    let mut p = policy();
    p.dedupe = false;
    let mut s = Session::start(p, 0);
    cap(&mut s, "same");
    cap(&mut s, "same");
    assert_eq!(s.len(), 2);
}

#[test]
fn max_items_caps_the_stack() {
    let mut p = policy();
    p.max_items = 2;
    let mut s = Session::start(p, 0);
    cap(&mut s, "a");
    cap(&mut s, "b");
    assert_eq!(cap(&mut s, "c"), CaptureOutcome::Full { limit: 2 });
    assert_eq!(s.len(), 2);
}

#[test]
fn images_can_be_filtered_out() {
    let mut p = policy();
    p.capture_images = false;
    let mut s = Session::start(p, 0);
    let img = ClipKind::Image { image: ImagePayload::raw(2, 2, vec![0; 16]) };
    assert_eq!(s.capture(img, None, 0), CaptureOutcome::Filtered { kind: "image".to_string() });
}

#[test]
fn undo_last_removes_only_the_newest() {
    let mut s = sess();
    cap(&mut s, "a");
    cap(&mut s, "b");
    let dropped = s.undo_last().expect("an item");
    assert_eq!(dropped.kind, ClipKind::text("b"));
    assert_eq!(s.len(), 1);
}

#[test]
fn ids_are_not_reused_after_removal() {
    let mut s = sess();
    cap(&mut s, "a");
    s.undo_last();
    cap(&mut s, "b");
    assert_eq!(s.items()[0].id, 2);
}

#[test]
fn reordering_moves_items_and_refuses_the_edges() {
    let mut s = sess();
    cap(&mut s, "a");
    cap(&mut s, "b");
    assert!(s.move_item(2, MoveDirection::Up));
    assert_eq!(s.render(&Template::default(), &clock()), "b\na");
    assert!(!s.move_item(2, MoveDirection::Up));
    assert!(!s.move_item(999, MoveDirection::Down));
}

#[test]
fn removing_an_item_frees_its_content_for_dedupe() {
    let mut s = sess();
    cap(&mut s, "a");
    assert_eq!(cap(&mut s, "a"), CaptureOutcome::Duplicate);
    s.remove(1);
    assert!(cap(&mut s, "a").accepted());
}

#[test]
fn capture_without_a_session_is_inactive() {
    let mut st = SessionStatus::new();
    assert_eq!(st.capture(ClipKind::text("x"), None), CaptureOutcome::Inactive);
}

#[test]
fn flush_closes_the_session_by_default() {
    let mut st = SessionStatus::new();
    st.start(policy()).capture(ClipKind::text("x"), None, 0);
    assert_eq!(st.flush(&Template::default(), false, &clock()).as_deref(), Some("x"));
    assert!(!st.is_active());
    assert_eq!(st.flush(&Template::default(), false, &clock()), None);
}

#[test]
fn flush_can_keep_the_stack_for_repeat_pastes() {
    let mut st = SessionStatus::new();
    st.start(policy()).capture(ClipKind::text("x"), None, 0);
    assert_eq!(st.flush(&Template::default(), true, &clock()).as_deref(), Some("x"));
    assert!(st.is_active());
    assert_eq!(st.flush(&Template::default(), true, &clock()).as_deref(), Some("x"));
}

#[test]
fn flushing_an_empty_session_yields_an_empty_block_not_none() {
    let mut st = SessionStatus::new();
    st.start(policy());
    assert_eq!(st.flush(&Template::default(), false, &clock()).as_deref(), Some(""));
}

#[test]
fn cancel_discards_without_rendering() {
    let mut st = SessionStatus::new();
    st.start(policy()).capture(ClipKind::text("x"), None, 0);
    assert!(st.cancel().is_some());
    assert!(!st.is_active());
    assert!(st.cancel().is_none());
}

#[test]
fn a_session_starts_unnamed() {
    assert_eq!(sess().name(), None);
}

#[test]
fn naming_a_session_trims_it() {
    let mut s = sess();
    s.set_name("  research notes  ");
    assert_eq!(s.name(), Some("research notes"));
    assert_eq!(s.snapshot().name.as_deref(), Some("research notes"));
}

#[test]
fn a_blank_name_clears_it() {
    let mut s = sess();
    s.set_name("temporary");
    s.set_name("   ");
    assert_eq!(s.name(), None);
}

#[test]
fn move_to_takes_a_fragment_to_the_top() {
    let mut s = sess();
    cap(&mut s, "a");
    cap(&mut s, "b");
    cap(&mut s, "c");
    assert!(s.move_to(3, 0));
    assert_eq!(
        s.render(&Template::default(), &clock()),
        "c
a
b"
    );
}

#[test]
fn move_to_takes_a_fragment_to_the_bottom() {
    let mut s = sess();
    cap(&mut s, "a");
    cap(&mut s, "b");
    cap(&mut s, "c");
    assert!(s.move_to(1, 2));
    assert_eq!(
        s.render(&Template::default(), &clock()),
        "b
c
a"
    );
}

#[test]
fn move_to_past_the_end_lands_at_the_end() {
    let mut s = sess();
    cap(&mut s, "a");
    cap(&mut s, "b");
    assert!(s.move_to(1, 99));
    assert_eq!(
        s.render(&Template::default(), &clock()),
        "b
a"
    );
}

#[test]
fn move_to_the_same_place_changes_nothing() {
    let mut s = sess();
    cap(&mut s, "a");
    cap(&mut s, "b");
    assert!(!s.move_to(1, 0));
    assert_eq!(
        s.render(&Template::default(), &clock()),
        "a
b"
    );
}

#[test]
fn move_to_an_unknown_fragment_is_refused() {
    let mut s = sess();
    cap(&mut s, "a");
    assert!(!s.move_to(99, 0));
}

#[test]
fn moving_an_excluded_fragment_keeps_it_excluded() {
    let mut s = sess();
    cap(&mut s, "a");
    cap(&mut s, "b");
    cap(&mut s, "c");
    s.set_included(3, false);
    s.move_to(3, 0);
    let snap = s.snapshot();
    assert!(!snap.items[0].included);
    assert_eq!(snap.items[0].position, None);
    assert_eq!(snap.items[1].position, Some(1));
    assert_eq!(
        s.render(&Template::default(), &clock()),
        "a
b"
    );
}

#[test]
fn unticked_fragments_stay_in_the_list_but_leave_the_block() {
    let mut s = sess();
    cap(&mut s, "keep");
    cap(&mut s, "drop");
    cap(&mut s, "keep too");
    assert!(s.set_included(2, false));
    assert_eq!(s.len(), 3, "unticking is not deleting");
    assert_eq!(s.included_count(), 2);
    assert_eq!(
        s.render(&Template::default(), &clock()),
        "keep
keep too"
    );
}

#[test]
fn numbering_closes_up_behind_an_unticked_fragment() {
    let mut s = sess();
    cap(&mut s, "a");
    cap(&mut s, "b");
    cap(&mut s, "c");
    s.set_included(2, false);
    let t = Template { item_format: "{index}/{count} {content}".into(), ..Default::default() };
    assert_eq!(
        s.render(&t, &clock()),
        "1/2 a
2/2 c"
    );
}

#[test]
fn an_unticked_fragment_can_be_brought_back() {
    let mut s = sess();
    cap(&mut s, "a");
    s.set_included(1, false);
    assert_eq!(s.render(&Template::default(), &clock()), "");
    s.set_included(1, true);
    assert_eq!(s.render(&Template::default(), &clock()), "a");
}

#[test]
fn set_all_included_covers_the_whole_stack() {
    let mut s = sess();
    cap(&mut s, "a");
    cap(&mut s, "b");
    s.set_all_included(false);
    assert_eq!(s.included_count(), 0);
    s.set_all_included(true);
    assert_eq!(s.included_count(), 2);
}

#[test]
fn snapshot_positions_follow_the_pasted_order() {
    let mut s = sess();
    cap(&mut s, "a");
    cap(&mut s, "b");
    cap(&mut s, "c");
    s.set_included(1, false);
    let snap = s.snapshot();
    assert_eq!(snap.items[0].position, None);
    assert_eq!(snap.items[1].position, Some(1));
    assert_eq!(snap.items[2].position, Some(2));
    assert_eq!(snap.included, 2);
    assert_eq!(snap.count, 3);
}

#[test]
fn editing_replaces_the_text_and_marks_it() {
    let mut s = sess();
    cap(&mut s, "typo");
    assert_eq!(s.edit_text(1, "fixed".into()), Ok(true));
    assert_eq!(s.render(&Template::default(), &clock()), "fixed");
    assert!(s.snapshot().items[0].edited);
}

#[test]
fn an_edit_that_changes_nothing_leaves_the_item_unmarked() {
    let mut s = sess();
    cap(&mut s, "same");
    assert_eq!(s.edit_text(1, "same".into()), Ok(true));
    assert!(!s.snapshot().items[0].edited);
}

#[test]
fn editing_back_to_the_original_still_counts_as_edited() {
    let mut s = sess();
    cap(&mut s, "one");
    s.edit_text(1, "two".into()).expect("edits");
    s.edit_text(1, "one".into()).expect("edits");
    assert!(s.snapshot().items[0].edited, "the fragment was still tampered with");
}

#[test]
fn editing_to_nothing_removes_the_fragment() {
    let mut s = sess();
    cap(&mut s, "a");
    cap(&mut s, "b");
    assert_eq!(s.edit_text(1, "   ".into()), Ok(false));
    assert_eq!(s.len(), 1);
    assert_eq!(s.render(&Template::default(), &clock()), "b");
}

#[test]
fn images_and_files_refuse_to_be_edited() {
    let mut s = sess();
    let img = ClipKind::Image { image: ImagePayload::raw(2, 2, vec![0; 16]) };
    s.capture(img, None, 0);
    assert_eq!(s.edit_text(1, "text".into()), Err(EditError::NotText));
}

#[test]
fn editing_a_gone_fragment_says_so() {
    let mut s = sess();
    assert_eq!(s.edit_text(99, "x".into()), Err(EditError::NoSuchItem));
}

#[test]
fn a_typed_line_joins_the_stack() {
    let mut s = sess();
    cap(&mut s, "copied");
    assert!(s.add_text("typed".into(), 0).accepted());
    assert_eq!(
        s.render(&Template::default(), &clock()),
        "copied
typed"
    );
    assert!(s.snapshot().items[1].edited);
}

#[test]
fn a_typed_line_may_repeat_something_already_there() {
    let mut s = sess();
    cap(&mut s, "same");
    assert_eq!(cap(&mut s, "same"), CaptureOutcome::Duplicate);
    assert!(s.add_text("same".into(), 0).accepted(), "typing it is deliberate");
    assert_eq!(s.len(), 2);
}

#[test]
fn a_blank_typed_line_is_refused() {
    let mut s = sess();
    assert_eq!(
        s.add_text(
            "  
 "
            .into(),
            0
        ),
        CaptureOutcome::Blank
    );
    assert!(s.is_empty());
}

#[test]
fn typed_lines_respect_the_item_limit() {
    let mut p = policy();
    p.max_items = 1;
    let mut s = Session::start(p, 0);
    cap(&mut s, "a");
    assert_eq!(s.add_text("b".into(), 0), CaptureOutcome::Full { limit: 1 });
}

#[test]
fn a_typed_line_gets_a_fresh_id() {
    let mut s = sess();
    cap(&mut s, "a");
    s.add_text("b".into(), 0);
    let ids: Vec<u64> = s.items().iter().map(|i| i.id).collect();
    assert_eq!(ids, vec![1, 2]);
}

#[test]
fn snapshot_reports_counts_without_payloads() {
    let mut st = SessionStatus::new();
    assert!(!st.snapshot().active);
    st.start(policy()).capture(ClipKind::text("hello world"), None, 0);
    let snap = st.snapshot();
    assert!(snap.active);
    assert_eq!(snap.count, 1);
    assert_eq!(snap.items[0].preview, "hello world");
}

#[test]
fn a_fresh_session_has_ids_to_hand_out_and_sizes_that_fit() {
    let s = sess();
    assert!(s.ids_left());
    let mut st = SessionStatus::new();
    assert!(st.ids_left() && st.sizes_fit());
    st.start(policy())
        .capture(ClipKind::Image { image: ImagePayload::raw(usize::MAX, 2, vec![]) }, None, 0);
    assert!(!st.sizes_fit(), "a size indicator that overflows is caught before a snapshot");
}

#[test]
fn unticking_and_ticking_again_restores_the_block() {
    let mut s = sess();
    cap(&mut s, "a");
    cap(&mut s, "b");
    let before = s.render(&Template::default(), &clock());
    assert!(s.set_included(1, false));
    assert_eq!(s.render(&Template::default(), &clock()), "b");
    assert!(s.set_included(1, true));
    assert_eq!(s.render(&Template::default(), &clock()), before);
}

fn clock() -> ClockReading {
    ClockReading {
        now: ZonedInstant { secs: 1_700_000_000, nanos: 0, offset: 0 },
        offsets: Vec::new(),
    }
}
