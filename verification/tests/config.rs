use incredibulk_core::{Config, Hotkeys, PasteFormat};

#[test]
fn defaults_are_clean() {
    assert!(Config::default().warnings().is_empty());
}

#[test]
fn colliding_hotkeys_are_reported_once() {
    let mut c = Config::default();
    c.hotkeys.flush = c.hotkeys.toggle_session.clone();
    let w = c.warnings();
    assert_eq!(w.len(), 1);
    assert_eq!(w[0].field, "hotkeys.flush");
}

#[test]
fn empty_hotkey_is_a_warning_not_a_collision() {
    let mut c = Config::default();
    c.hotkeys.cancel = String::new();
    c.hotkeys.undo_last = String::new();
    let w = c.warnings();
    assert_eq!(w.len(), 2);
    assert!(w.iter().all(|x| x.message.contains("tray")));
}

#[test]
fn every_default_shortcut_is_distinct() {
    let hotkeys = Hotkeys::default();
    let all = hotkeys.all();
    for (i, (name, accel)) in all.iter().enumerate() {
        assert!(!accel.is_empty(), "{name} has no default");
        for (other, previous) in all[..i].iter() {
            assert_ne!(accel, previous, "{name} collides with {other}");
        }
    }
}

#[test]
fn absurd_poll_intervals_are_flagged() {
    let mut c = Config::default();
    c.behavior.poll_interval_ms = 5;
    assert!(c.warnings().iter().any(|w| w.field == "behavior.poll_interval_ms"));
    c.behavior.poll_interval_ms = 5_000;
    assert!(c.warnings().iter().any(|w| w.field == "behavior.poll_interval_ms"));
}

#[test]
fn a_collision_names_the_earlier_shortcut() {
    let mut c = Config::default();
    c.hotkeys.history = c.hotkeys.cancel.clone();
    let w = c.warnings();
    assert_eq!(w.len(), 1);
    assert_eq!(w[0].field, "hotkeys.history");
    assert_eq!(w[0].message, "Same shortcut as cancel; only one of them will fire.");
}

#[test]
fn a_whitespace_shortcut_counts_as_empty() {
    let mut c = Config::default();
    c.hotkeys.toggle_hud = "   ".into();
    let w = c.warnings();
    assert_eq!(w.len(), 1);
    assert_eq!(w[0].field, "hotkeys.toggle_hud");
    assert_eq!(w[0].message, "No shortcut set, so this action can only be reached from the tray.");
}

#[test]
fn every_behaviour_warning_comes_in_order() {
    let mut c = Config::default();
    c.behavior.poll_interval_ms = 10;
    c.behavior.paste_delay_ms = 0;
    c.behavior.history_limit = 0;
    c.behavior.paste_format = PasteFormat::Plain;
    let fields: Vec<String> = c.warnings().into_iter().map(|w| w.field).collect();
    assert_eq!(
        fields,
        vec![
            "behavior.poll_interval_ms",
            "behavior.paste_delay_ms",
            "behavior.history_limit",
            "behavior.paste_format",
        ]
    );
}

#[test]
fn capturing_only_text_is_mentioned() {
    let mut c = Config::default();
    c.capture.capture_images = false;
    c.capture.capture_files = false;
    let w = c.warnings();
    assert_eq!(w.len(), 1);
    assert_eq!(w[0].field, "capture");
    assert_eq!(w[0].message, "Only text will be captured.");
}

#[test]
fn a_short_delay_matters_only_when_pasting_automatically() {
    let mut c = Config::default();
    c.behavior.paste_delay_ms = 5;
    c.behavior.auto_paste = false;
    assert!(c.warnings().is_empty());
    c.behavior.auto_paste = true;
    assert_eq!(c.warnings()[0].field, "behavior.paste_delay_ms");
}

#[test]
fn the_defaults_are_the_documented_ones() {
    let c = Config::default();
    assert_eq!(c.hotkeys.flush, "CmdOrCtrl+Alt+V");
    assert_eq!(c.behavior.poll_interval_ms, 180);
    assert_eq!(c.behavior.paste_delay_ms, 120);
    assert_eq!(c.behavior.history_limit, 50);
    assert!(c.behavior.paste_format.is_rich());
    assert!(c.capture.dedupe && c.capture.capture_images && c.capture.capture_files);
    assert_eq!(c.capture.max_items, 0);
    assert!(!c.onboarded);
}
