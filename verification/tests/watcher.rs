use incredibulk_core::watcher::{
    next_read, poll_wait_ms, watch_interval_ms, ReadStep, Wanted, Watcher,
};
use incredibulk_core::ClipKind;

#[test]
fn a_change_counter_that_did_not_move_skips_the_read() {
    let mut w = Watcher::new(Some(7));
    assert!(!w.tick(Some(7)));
    assert!(w.tick(Some(8)));
    assert_eq!(w.last_generation, Some(8));
    assert!(w.tick(None), "without a counter every tick reads");
}

#[test]
fn the_same_content_is_captured_once() {
    let mut w = Watcher::new(None);
    let k = ClipKind::text("hello");
    assert!(w.seen(&k));
    assert!(!w.seen(&ClipKind::text("hello")));
    assert!(w.seen(&ClipKind::text("other")));
}

#[test]
fn the_watchers_own_write_never_comes_back() {
    let mut w = Watcher::new(Some(1));
    let block = ClipKind::text("a\nb");
    w.wrote(&block, Some(2));
    assert!(w.tick(Some(3)));
    assert!(!w.seen(&ClipKind::text("a\nb")));
}

#[test]
fn a_rebase_adopts_what_is_there() {
    let mut w = Watcher::new(None);
    let existing = ClipKind::text("stale");
    w.rebase(Some(&existing), Some(4));
    assert!(!w.seen(&ClipKind::text("stale")));
    w.rebase(None, None);
    assert_eq!(w.last_digest, None);
}

#[test]
fn poll_periods_stay_in_bounds() {
    assert_eq!(watch_interval_ms(5), 30);
    assert_eq!(watch_interval_ms(180), 180);
    assert_eq!(watch_interval_ms(60_000), 5_000);
    assert_eq!(poll_wait_ms(true, 180), 180);
    assert_eq!(poll_wait_ms(false, 180), 500);
}

#[test]
fn files_come_first_and_images_last() {
    let all = Wanted::everything();
    assert_eq!(next_read(all, None), Some(ReadStep::Files));
    assert_eq!(next_read(all, Some(ReadStep::Files)), Some(ReadStep::Text));
    assert_eq!(next_read(all, Some(ReadStep::Text)), Some(ReadStep::Image));
    assert_eq!(next_read(all, Some(ReadStep::Image)), None);
    let text_only = Wanted { images: false, files: false };
    assert_eq!(next_read(text_only, None), Some(ReadStep::Text));
    assert_eq!(next_read(text_only, Some(ReadStep::Text)), None);
}
