use incredibulk_core::desktop::{
    corner_position, crash_line, human, install_refusal, leftover_list, menu_action,
    registration_failure, registration_outcome, removal_question, removal_report,
    shortcut_action, shortcuts_to_register, trim_title, tray_tooltip, MenuAction,
    ShortcutAction, UpdateStatus,
};
use incredibulk_core::{Hotkeys, HudCorner};

#[test]
fn titles_are_flattened_and_capped() {
    assert_eq!(trim_title("  a\nb\tc  "), "a b c");
    let long = "x".repeat(200);
    assert_eq!(trim_title(&long).chars().count(), 80);
}

#[test]
fn sizes_read_the_way_a_person_would_say_them() {
    assert_eq!(human(5 * 1024 * 1024), "5 MB");
    assert_eq!(human(2048), "2 KB");
    assert_eq!(human(1), "1 KB");
}

#[test]
fn a_capped_title_ends_in_an_ellipsis() {
    let long = "y".repeat(100);
    let t = trim_title(&long);
    assert!(t.ends_with('\u{2026}'));
    assert_eq!(t.chars().filter(|c| *c == 'y').count(), 79);
}

#[test]
fn the_tooltip_says_how_much_is_collected() {
    assert_eq!(tray_tooltip(false, 3), "Incredibulk: no session open");
    assert_eq!(tray_tooltip(true, 1), "Incredibulk: 1 item captured");
    assert_eq!(tray_tooltip(true, 4), "Incredibulk: 4 items captured");
    assert_eq!(tray_tooltip(true, 0), "Incredibulk: 0 items captured");
}

#[test]
fn the_stack_window_sits_a_margin_in_from_its_corner() {
    let at = |c| corner_position(c, 0, 0, 1920, 1080, 360, 460, 24);
    assert_eq!(at(HudCorner::TopLeft), (24, 24));
    assert_eq!(at(HudCorner::TopRight), (1536, 24));
    assert_eq!(at(HudCorner::BottomLeft), (24, 596));
    assert_eq!(at(HudCorner::BottomRight), (1536, 596));
    assert_eq!(corner_position(HudCorner::TopLeft, -1920, 100, 1920, 1080, 360, 460, 48), (-1872, 148));
}

#[test]
fn the_removal_question_lists_what_will_go() {
    let q = removal_question(false, true, Some("/home/me/.config/app"), 3 * 1024 * 1024);
    assert_eq!(
        q,
        "Incredibulk was never installed: it is a single file you can delete.\n\
         \n\
         Removing it will take away:\n\
         \x20 the entry that starts it when you log in\n\
         \x20 your settings and saved sessions, in /home/me/.config/app\n\
         \x20 3 MB of browser cache it built up\n\
         \n\
         This cannot be undone. Remove it and quit?"
    );
    let bare = removal_question(true, false, None, 0);
    assert!(bare.starts_with("This clears what Incredibulk leaves in your profile."));
    assert_eq!(bare.lines().count(), 5);
}

#[test]
fn the_removal_report_says_what_is_left() {
    assert_eq!(removal_report("", false, false, false), "Incredibulk is gone.");
    assert!(removal_report("", false, true, false).contains("Installed apps"));
    let listed = leftover_list(&["C:\\a".to_string(), "C:\\b".to_string()]);
    assert_eq!(listed, "C:\\a\nC:\\b");
    assert_eq!(
        removal_report(&listed, true, false, true),
        "Settings and the login entry are gone.\n\nThese are still in use and have to go by hand:\nC:\\a\nC:\\b\n\nThose paths are on your clipboard."
    );
    assert!(removal_report(&listed, true, false, false).ends_with("Copy the paths above before closing this."));
}

#[test]
fn an_update_is_offered_never_forced_during_a_session() {
    let s = UpdateStatus::none();
    assert!(!s.available && s.error.is_none());
    let f = UpdateStatus::failed("offline".into());
    assert_eq!(f.error.as_deref(), Some("offline"));
    let o = UpdateStatus::offered("1.2.0".into(), Some("notes".into()));
    assert!(o.available);
    assert_eq!(o.version.as_deref(), Some("1.2.0"));
    assert_eq!(
        install_refusal(true).as_deref(),
        Some("A session is open. Paste or discard it first, then update.")
    );
    assert!(install_refusal(false).is_none());
}

#[test]
fn a_crash_line_says_when_what_and_where() {
    assert_eq!(
        crash_line(1700000000, "0.3.1", Some("src/main.rs:10"), Some("boom")),
        "1700000000 v0.3.1 panicked at src/main.rs:10: boom\n"
    );
    assert_eq!(crash_line(0, "1", None, None), "0 v1 panicked at unknown location: no message\n");
}

#[test]
fn shortcut_names_map_to_actions() {
    assert_eq!(shortcut_action("toggle_session"), Some(ShortcutAction::ToggleSession));
    assert_eq!(shortcut_action("flush"), Some(ShortcutAction::Flush));
    assert_eq!(shortcut_action("cancel"), Some(ShortcutAction::Cancel));
    assert_eq!(shortcut_action("undo_last"), Some(ShortcutAction::UndoLast));
    assert_eq!(shortcut_action("toggle_hud"), Some(ShortcutAction::ToggleHud));
    assert_eq!(shortcut_action("history"), Some(ShortcutAction::History));
    assert_eq!(shortcut_action("flush "), None);
}

#[test]
fn tray_entries_map_to_actions() {
    assert_eq!(menu_action("hud"), Some(MenuAction::Stack));
    assert_eq!(menu_action("uninstall"), Some(MenuAction::Remove));
    assert_eq!(menu_action("quit"), Some(MenuAction::Quit));
    assert_eq!(menu_action("nothing"), None);
}

#[test]
fn empty_shortcuts_are_not_registered_and_the_rest_are_trimmed() {
    let mut h = Hotkeys::default();
    h.cancel = "  ".into();
    h.flush = "  CmdOrCtrl+Alt+V ".into();
    let r = shortcuts_to_register(&h);
    assert_eq!(r.len(), 5);
    assert_eq!(r[1], ("flush", "CmdOrCtrl+Alt+V".to_string()));
    assert_eq!(r[2].0, "undo_last");
}

#[test]
fn refused_shortcuts_are_reported_together() {
    assert_eq!(registration_outcome(&[]), Ok(()));
    let a = registration_failure("flush", "Ctrl+V", "taken");
    assert_eq!(a, "flush (Ctrl+V): taken");
    let b = registration_failure("cancel", "Ctrl+X", "bad");
    assert_eq!(
        registration_outcome(&[a, b]),
        Err("These shortcuts could not be registered, most likely because another application already owns them: flush (Ctrl+V): taken; cancel (Ctrl+X): bad".to_string())
    );
}

#[test]
fn leftovers_list_what_survived_in_order() {
    let r = incredibulk_core::desktop::leftover_paths(
        Some("/s".to_owned()),
        Some("/c".to_owned()),
        false,
        Some("/e".to_owned()),
    );
    assert_eq!(r, vec!["/s".to_owned(), "/c".to_owned(), "/e".to_owned()]);
}

#[test]
fn an_installed_program_is_not_a_leftover() {
    let r = incredibulk_core::desktop::leftover_paths(None, Some("/c".to_owned()), true, Some("/e".to_owned()));
    assert_eq!(r, vec!["/c".to_owned()]);
}
