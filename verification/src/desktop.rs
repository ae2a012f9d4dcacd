//! What the desktop shell decides and says: window titles, the tray, the
//! stack window's corner, the global shortcuts, updates, the crash log and
//! the removal of the program. The app performs the platform calls around
//! these.

use vstd::prelude::*;

use crate::config::{hotkey_names, hotkey_values, HudCorner, Hotkeys};
use crate::text::{
    chars_eq, chars_of, decimal, decimal_string, flatten_breaks, flatten_line_breaks, join,
    join_chars, string_of, trim, trim_chars, truncate_chars, truncated,
};

verus! {

/// The longest window title kept for `{source}`.
pub const MAX_TITLE_CHARS: usize = 80;

/// A window title as a fragment's source: on one line, trimmed, and at most
/// eighty characters.
pub fn trim_title(raw: &str) -> (r: String)
    ensures
        r@ == truncated(trim(flatten_breaks(raw@)), MAX_TITLE_CHARS as nat),
{
    let v = chars_of(raw);
    let flat = flatten_line_breaks(v.as_slice());
    let t = trim_chars(flat.as_slice());
    string_of(truncate_chars(t.as_slice(), MAX_TITLE_CHARS).as_slice())
}

/// The tray tooltip: whether a session is open and how much it holds.
pub fn tray_tooltip(active: bool, count: usize) -> (r: String)
    ensures
        r@ == if !active {
            "Incredibulk: no session open"@
        } else if count == 1 {
            "Incredibulk: 1 item captured"@
        } else {
            "Incredibulk: "@ + decimal(count as nat) + " items captured"@
        },
{
    if !active {
        "Incredibulk: no session open".to_owned()
    } else if count == 1 {
        "Incredibulk: 1 item captured".to_owned()
    } else {
        let mut r = "Incredibulk: ".to_owned();
        let d = decimal_string(count as u64);
        r.append(d.as_str());
        r.append(" items captured");
        r
    }
}

/// Where the stack window goes on a monitor: its top-left corner, a margin
/// in from the configured corner of the screen.
pub open spec fn corner_spec(
    corner: HudCorner,
    origin_x: int,
    origin_y: int,
    screen_w: int,
    screen_h: int,
    window_w: int,
    window_h: int,
    margin: int,
) -> (int, int) {
    let right = origin_x + screen_w - window_w - margin;
    let bottom = origin_y + screen_h - window_h - margin;
    let left = origin_x + margin;
    let top = origin_y + margin;
    match corner {
        HudCorner::TopLeft => (left, top),
        HudCorner::TopRight => (right, top),
        HudCorner::BottomLeft => (left, bottom),
        HudCorner::BottomRight => (right, bottom),
    }
}

/// `v` fits in an `i32`.
pub open spec fn fits_i32(v: int) -> bool {
    i32::MIN <= v <= i32::MAX
}

/// Where to put the stack window for the configured corner.
pub fn corner_position(
    corner: HudCorner,
    origin_x: i32,
    origin_y: i32,
    screen_w: i32,
    screen_h: i32,
    window_w: i32,
    window_h: i32,
    margin: i32,
) -> (r: (i32, i32))
    requires
        fits_i32(origin_x + screen_w),
        fits_i32(origin_x + screen_w - window_w),
        fits_i32(origin_x + screen_w - window_w - margin),
        fits_i32(origin_y + screen_h),
        fits_i32(origin_y + screen_h - window_h),
        fits_i32(origin_y + screen_h - window_h - margin),
        fits_i32(origin_x + margin),
        fits_i32(origin_y + margin),
    ensures
        (r.0 as int, r.1 as int) == corner_spec(
            corner,
            origin_x as int,
            origin_y as int,
            screen_w as int,
            screen_h as int,
            window_w as int,
            window_h as int,
            margin as int,
        ),
{
    let right: i32 = origin_x + screen_w - window_w - margin;
    let bottom: i32 = origin_y + screen_h - window_h - margin;
    let left: i32 = origin_x + margin;
    let top: i32 = origin_y + margin;
    match corner {
        HudCorner::TopLeft => (left, top),
        HudCorner::TopRight => (right, top),
        HudCorner::BottomLeft => (left, bottom),
        HudCorner::BottomRight => (right, bottom),
    }
}

/// One mebibyte.
pub const MB: u64 = 1048576;

/// A size the way a person would say it: whole megabytes from one
/// mebibyte up, otherwise whole kilobytes and never zero.
pub open spec fn human_spec(bytes: u64) -> Seq<char> {
    if bytes >= MB {
        decimal((bytes / MB) as nat) + " MB"@
    } else {
        decimal(if bytes / 1024 == 0 {
            1nat
        } else {
            (bytes / 1024) as nat
        }) + " KB"@
    }
}

pub fn human(bytes: u64) -> (r: String)
    ensures
        r@ == human_spec(bytes),
{
    let (n, unit): (u64, &str) = if bytes >= MB {
        (bytes / MB, " MB")
    } else {
        let k: u64 = bytes / 1024;
        (if k == 0 {
            1
        } else {
            k
        }, " KB")
    };
    let mut r = decimal_string(n);
    r.append(unit);
    r
}

/// The opening line of the removal question.
pub open spec fn removal_opening(installed: bool) -> Seq<char> {
    if installed {
        "This clears what Incredibulk leaves in your profile. The program itself is removed through Windows, in Settings under Installed apps."@
    } else {
        "Incredibulk was never installed: it is a single file you can delete."@
    }
}

/// The lines of the question asked before removing the program: what kind
/// of copy this is, then each thing that will go.
pub open spec fn removal_lines(
    installed: bool,
    autostart: bool,
    settings: Option<Seq<char>>,
    cache_bytes: u64,
) -> Seq<Seq<char>> {
    seq![removal_opening(installed), seq![], "Removing it will take away:"@] + (if autostart {
        seq!["  the entry that starts it when you log in"@]
    } else {
        seq![]
    }) + (match settings {
        Some(path) => seq!["  your settings and saved sessions, in "@ + path],
        None => seq![],
    }) + (if cache_bytes > 0 {
        seq!["  "@ + human_spec(cache_bytes) + " of browser cache it built up"@]
    } else {
        seq![]
    }) + seq![seq![], "This cannot be undone. Remove it and quit?"@]
}

/// Append a line made of a literal and a text.
fn push_line(lines: &mut Vec<Vec<char>>, head: &str, rest: &str)
    ensures
        final(lines)@.map_values(|l: Vec<char>| l@) == old(lines)@.map_values(|l: Vec<char>| l@).push(
            head@ + rest@,
        ),
{
    let ghost before = lines@.map_values(|l: Vec<char>| l@);
    let mut l = chars_of(head);
    let r = chars_of(rest);
    crate::text::push_all(&mut l, r.as_slice());
    lines.push(l);
    proof {
        assert(lines@.map_values(|l: Vec<char>| l@) =~= before.push(head@ + rest@));
    }
}

/// Append a line.
fn push_text(lines: &mut Vec<Vec<char>>, text: &str)
    ensures
        final(lines)@.map_values(|l: Vec<char>| l@) == old(lines)@.map_values(|l: Vec<char>| l@).push(
            text@,
        ),
{
    let ghost before = lines@.map_values(|l: Vec<char>| l@);
    lines.push(chars_of(text));
    proof {
        assert(lines@.map_values(|l: Vec<char>| l@) =~= before.push(text@));
    }
}

/// The question asked before removing the program, one line each.
pub fn removal_question(
    installed: bool,
    autostart: bool,
    settings: Option<&str>,
    cache_bytes: u64,
) -> (r: String)
    ensures
        r@ == join(
            removal_lines(
                installed,
                autostart,
                match settings {
                    Some(p) => Some(p@),
                    None => None,
                },
                cache_bytes,
            ),
            "\n"@,
        ),
{
    let ghost sv = match settings {
        Some(p) => Some(p@),
        None => None,
    };
    let mut lines: Vec<Vec<char>> = Vec::new();
    proof {
        reveal_strlit("");
        assert(""@ =~= Seq::<char>::empty());
        assert(lines@.map_values(|l: Vec<char>| l@) =~= Seq::<Seq<char>>::empty());
    }
    if installed {
        push_text(&mut lines, "This clears what Incredibulk leaves in your profile. The program itself is removed through Windows, in Settings under Installed apps.");
    } else {
        push_text(&mut lines, "Incredibulk was never installed: it is a single file you can delete.");
    }
    push_text(&mut lines, "");
    push_text(&mut lines, "Removing it will take away:");
    let ghost head = lines@.map_values(|l: Vec<char>| l@);
    proof {
        assert(head =~= seq![removal_opening(installed), seq![], "Removing it will take away:"@]);
    }
    if autostart {
        push_text(&mut lines, "  the entry that starts it when you log in");
    }
    let ghost with_autostart = lines@.map_values(|l: Vec<char>| l@);
    proof {
        assert(with_autostart =~= head + (if autostart {
            seq!["  the entry that starts it when you log in"@]
        } else {
            seq![]
        }));
    }
    match settings {
        Some(p) => push_line(&mut lines, "  your settings and saved sessions, in ", p),
        None => {},
    }
    let ghost with_settings = lines@.map_values(|l: Vec<char>| l@);
    proof {
        assert(with_settings =~= with_autostart + (match sv {
            Some(path) => seq!["  your settings and saved sessions, in "@ + path],
            None => seq![],
        }));
    }
    if cache_bytes > 0 {
        let h = human(cache_bytes);
        let mut line = "  ".to_owned();
        line.append(h.as_str());
        push_line(&mut lines, line.as_str(), " of browser cache it built up");
    }
    let ghost with_cache = lines@.map_values(|l: Vec<char>| l@);
    proof {
        assert(with_cache =~= with_settings + (if cache_bytes > 0 {
            seq!["  "@ + human_spec(cache_bytes) + " of browser cache it built up"@]
        } else {
            seq![]
        }));
    }
    push_text(&mut lines, "");
    push_text(&mut lines, "This cannot be undone. Remove it and quit?");
    let sep = chars_of("\n");
    let joined = join_chars(lines.as_slice(), sep.as_slice());
    proof {
        let want = removal_lines(installed, autostart, sv, cache_bytes);
        assert(lines@.map_values(|l: Vec<char>| l@) =~= with_cache + seq![
            seq![],
            "This cannot be undone. Remove it and quit?"@,
        ]);
        assert(lines@.map_values(|l: Vec<char>| l@) =~= want);
    }
    string_of(joined.as_slice())
}

/// An optional path as a list of none or one.
pub open spec fn optional_path(p: Option<String>) -> Seq<Seq<char>> {
    match p {
        Some(v) => seq![v@],
        None => seq![],
    }
}

/// The paths left behind after removal: the settings directory when it could
/// not be deleted, the cache directory when it is still there, and the
/// executable when no installer owns it, in that order.
pub open spec fn leftovers_spec(
    settings_kept: Option<String>,
    cache_kept: Option<String>,
    installed: bool,
    executable: Option<String>,
) -> Seq<Seq<char>> {
    optional_path(settings_kept) + optional_path(cache_kept) + if installed {
        Seq::<Seq<char>>::empty()
    } else {
        optional_path(executable)
    }
}

/// What is left for the user to delete. With an installer in play the
/// program is the installer's to remove, so the executable is not listed.
pub fn leftover_paths(
    settings_kept: Option<String>,
    cache_kept: Option<String>,
    installed: bool,
    executable: Option<String>,
) -> (r: Vec<String>)
    ensures
        r@.map_values(|p: String| p@) == leftovers_spec(
            settings_kept,
            cache_kept,
            installed,
            executable,
        ),
{
    let ghost want = leftovers_spec(settings_kept, cache_kept, installed, executable);
    let mut r: Vec<String> = Vec::new();
    match settings_kept {
        Some(p) => r.push(p),
        None => {},
    }
    match cache_kept {
        Some(p) => r.push(p),
        None => {},
    }
    if !installed {
        match executable {
            Some(p) => r.push(p),
            None => {},
        }
    }
    proof {
        assert(r@.map_values(|p: String| p@) =~= want);
    }
    r
}

/// What removal could not do itself, one path per line.
pub fn leftover_list(leftovers: &[String]) -> (r: String)
    ensures
        r@ == join(leftovers@.map_values(|p: String| p@), "\n"@),
{
    let mut parts: Vec<Vec<char>> = Vec::new();
    let mut i: usize = 0;
    while i < leftovers.len()
        invariant
            i <= leftovers@.len(),
            parts@.map_values(|l: Vec<char>| l@) == leftovers@.take(i as int).map_values(
                |p: String| p@,
            ),
        decreases leftovers.len() - i,
    {
        let ghost prev = parts@;
        parts.push(chars_of(leftovers[i].as_str()));
        proof {
            assert(parts@.map_values(|l: Vec<char>| l@) =~= prev.map_values(|l: Vec<char>| l@).push(
                leftovers@[i as int]@,
            ));
            assert(leftovers@.take(i + 1).map_values(|p: String| p@) =~= leftovers@.take(
                i as int,
            ).map_values(|p: String| p@).push(leftovers@[i as int]@));
        }
        i = i + 1;
    }
    proof {
        assert(leftovers@.take(leftovers@.len() as int) =~= leftovers@);
    }
    let sep = chars_of("\n");
    string_of(join_chars(parts.as_slice(), sep.as_slice()).as_slice())
}

/// The last line of the removal report when something was left.
pub open spec fn leftover_tail(installed: bool, copied: bool) -> Seq<char> {
    if installed {
        "Remove the program itself from Windows Settings, under Installed apps."@
    } else if copied {
        "Those paths are on your clipboard."@
    } else {
        "Copy the paths above before closing this."@
    }
}

/// What removal reports: that everything went, or which paths are left
/// for the user to delete (listed one per line), and where they are.
pub open spec fn removal_report_spec(listed: Seq<char>, anything_left: bool, installed: bool, copied: bool) -> Seq<char> {
    if !anything_left {
        if installed {
            "Settings and the login entry are gone. Remove the program itself from Windows Settings, under Installed apps."@
        } else {
            "Incredibulk is gone."@
        }
    } else {
        "Settings and the login entry are gone.\n\nThese are still in use and have to go by hand:\n"@
            + listed + "\n\n"@ + leftover_tail(installed, copied)
    }
}

pub fn removal_report(listed: &str, anything_left: bool, installed: bool, copied: bool) -> (r: String)
    ensures
        r@ == removal_report_spec(listed@, anything_left, installed, copied),
{
    if !anything_left {
        if installed {
            return "Settings and the login entry are gone. Remove the program itself from Windows Settings, under Installed apps.".to_owned();
        } else {
            return "Incredibulk is gone.".to_owned();
        }
    }
    let mut r = "Settings and the login entry are gone.\n\nThese are still in use and have to go by hand:\n".to_owned();
    r.append(listed);
    r.append("\n\n");
    if installed {
        r.append("Remove the program itself from Windows Settings, under Installed apps.");
    } else if copied {
        r.append("Those paths are on your clipboard.");
    } else {
        r.append("Copy the paths above before closing this.");
    }
    r
}

/// What the interface needs to decide whether to offer an update.
#[derive(Clone, Debug)]
pub struct UpdateStatus {
    pub available: bool,
    /// The version on offer, when there is one.
    pub version: Option<String>,
    pub notes: Option<String>,
    /// Set when the check could not be made at all, because "no update" and
    /// "could not tell" are different answers.
    pub error: Option<String>,
}

impl UpdateStatus {
    /// Nothing newer.
    pub fn none() -> (s: Self)
        ensures
            !s.available && s.version is None && s.notes is None && s.error is None,
    {
        UpdateStatus { available: false, version: None, notes: None, error: None }
    }

    /// The check could not be made.
    pub fn failed(reason: String) -> (s: Self)
        ensures
            !s.available && s.version is None && s.notes is None && s.error == Some(reason),
    {
        UpdateStatus { available: false, version: None, notes: None, error: Some(reason) }
    }

    /// A newer version is on offer.
    pub fn offered(version: String, notes: Option<String>) -> (s: Self)
        ensures
            s.available && s.version == Some(version) && s.notes == notes && s.error is None,
    {
        UpdateStatus { available: true, version: Some(version), notes, error: None }
    }
}

/// Why an update may not be installed now: a session lives in memory, so a
/// restart would throw it away.
pub fn install_refusal(session_active: bool) -> (r: Option<String>)
    ensures
        session_active ==> (r matches Some(e) && e@
            == "A session is open. Paste or discard it first, then update."@),
        !session_active ==> r is None,
{
    if session_active {
        Some("A session is open. Paste or discard it first, then update.".to_owned())
    } else {
        None
    }
}

/// One line of the crash log: when, which version, where and what.
pub open spec fn crash_line_spec(
    when: u64,
    version: Seq<char>,
    location: Option<Seq<char>>,
    message: Option<Seq<char>>,
) -> Seq<char> {
    decimal(when as nat) + " v"@ + version + " panicked at "@ + match location {
        Some(l) => l,
        None => "unknown location"@,
    } + ": "@ + match message {
        Some(m) => m,
        None => "no message"@,
    } + "\n"@
}

pub fn crash_line(when: u64, version: &str, location: Option<&str>, message: Option<&str>) -> (r:
    String)
    ensures
        r@ == crash_line_spec(
            when,
            version@,
            match location {
                Some(l) => Some(l@),
                None => None,
            },
            match message {
                Some(m) => Some(m@),
                None => None,
            },
        ),
{
    let mut r = decimal_string(when);
    r.append(" v");
    r.append(version);
    r.append(" panicked at ");
    match location {
        Some(l) => r.append(l),
        None => r.append("unknown location"),
    }
    r.append(": ");
    match message {
        Some(m) => r.append(m),
        None => r.append("no message"),
    }
    r.append("\n");
    r
}

/// What a global shortcut does.
#[derive(Clone, Copy, Debug, PartialEq, Eq)]
pub enum ShortcutAction {
    ToggleSession,
    Flush,
    Cancel,
    UndoLast,
    ToggleHud,
    History,
}

/// The action bound to a shortcut's name.
pub open spec fn shortcut_spec(name: Seq<char>) -> Option<ShortcutAction> {
    if name == "toggle_session"@ {
        Some(ShortcutAction::ToggleSession)
    } else if name == "flush"@ {
        Some(ShortcutAction::Flush)
    } else if name == "cancel"@ {
        Some(ShortcutAction::Cancel)
    } else if name == "undo_last"@ {
        Some(ShortcutAction::UndoLast)
    } else if name == "toggle_hud"@ {
        Some(ShortcutAction::ToggleHud)
    } else if name == "history"@ {
        Some(ShortcutAction::History)
    } else {
        None
    }
}

/// Whether `s` is exactly the text `lit`.
fn is_text(s: &[char], lit: &str) -> (b: bool)
    ensures
        b == (s@ == lit@),
{
    let l = chars_of(lit);
    chars_eq(s, l.as_slice())
}

pub fn shortcut_action(name: &str) -> (r: Option<ShortcutAction>)
    ensures
        r == shortcut_spec(name@),
{
    let n = chars_of(name);
    if is_text(n.as_slice(), "toggle_session") {
        Some(ShortcutAction::ToggleSession)
    } else if is_text(n.as_slice(), "flush") {
        Some(ShortcutAction::Flush)
    } else if is_text(n.as_slice(), "cancel") {
        Some(ShortcutAction::Cancel)
    } else if is_text(n.as_slice(), "undo_last") {
        Some(ShortcutAction::UndoLast)
    } else if is_text(n.as_slice(), "toggle_hud") {
        Some(ShortcutAction::ToggleHud)
    } else if is_text(n.as_slice(), "history") {
        Some(ShortcutAction::History)
    } else {
        None
    }
}

/// The shortcuts worth registering, in order: each name with its
/// accelerator trimmed, leaving out the ones left empty.
pub open spec fn registrations_spec(names: Seq<Seq<char>>, vals: Seq<Seq<char>>, n: int) -> Seq<
    (Seq<char>, Seq<char>),
>
    decreases n,
{
    if n <= 0 {
        seq![]
    } else {
        registrations_spec(names, vals, n - 1) + if trim(vals[n - 1]).len() == 0 {
            seq![]
        } else {
            seq![(names[n - 1], trim(vals[n - 1]))]
        }
    }
}

/// The shortcuts to register, each name with its trimmed accelerator.
pub fn shortcuts_to_register(hotkeys: &Hotkeys) -> (r: Vec<(&'static str, String)>)
    ensures
        r@.map_values(|p: (&'static str, String)| (p.0@, p.1@)) == registrations_spec(
            hotkey_names(),
            hotkey_values(*hotkeys),
            6,
        ),
{
    let keys = hotkeys.all();
    let ghost names = hotkey_names();
    let ghost vals = hotkey_values(*hotkeys);
    let mut r: Vec<(&'static str, String)> = Vec::new();
    let mut i: usize = 0;
    while i < 6
        invariant
            i <= 6,
            names == hotkey_names(),
            vals == hotkey_values(*hotkeys),
            forall|k: int|
                0 <= k < 6 ==> (#[trigger] keys@[k]).0@ == names[k] && keys@[k].1@ == vals[k],
            r@.map_values(|p: (&'static str, String)| (p.0@, p.1@)) == registrations_spec(
                names,
                vals,
                i as int,
            ),
        decreases 6 - i,
    {
        let (name, accel) = keys[i];
        proof {
            assert(keys@[i as int].0@ == names[i as int]);
        }
        let a = chars_of(accel);
        let t = trim_chars(a.as_slice());
        let ghost prev = r@;
        if t.len() > 0 {
            r.push((name, string_of(t.as_slice())));
            proof {
                assert(r@.map_values(|p: (&'static str, String)| (p.0@, p.1@)) =~= prev.map_values(
                    |p: (&'static str, String)| (p.0@, p.1@),
                ).push((names[i as int], trim(vals[i as int]))));
            }
        }
        proof {
            assert(r@.map_values(|p: (&'static str, String)| (p.0@, p.1@)) =~= registrations_spec(
                names,
                vals,
                i + 1,
            ));
        }
        i = i + 1;
    }
    r
}

/// How one refused shortcut is described.
pub fn registration_failure(name: &str, accelerator: &str, error: &str) -> (r: String)
    ensures
        r@ == name@ + " ("@ + accelerator@ + "): "@ + error@,
{
    let mut r = name.to_owned();
    r.append(" (");
    r.append(accelerator);
    r.append("): ");
    r.append(error);
    r
}

/// What registering the shortcuts comes to: fine when none was refused,
/// otherwise one error naming every refusal.
pub fn registration_outcome(failures: &[String]) -> (r: Result<(), String>)
    ensures
        failures@.len() == 0 ==> r is Ok,
        failures@.len() > 0 ==> (r matches Err(e) && e@
            == "These shortcuts could not be registered, most likely because another application already owns them: "@
            + join(failures@.map_values(|f: String| f@), "; "@)),
{
    if failures.len() == 0 {
        return Ok(());
    }
    let mut parts: Vec<Vec<char>> = Vec::new();
    let mut i: usize = 0;
    while i < failures.len()
        invariant
            i <= failures@.len(),
            parts@.map_values(|l: Vec<char>| l@) == failures@.take(i as int).map_values(
                |f: String| f@,
            ),
        decreases failures.len() - i,
    {
        let ghost prev = parts@;
        parts.push(chars_of(failures[i].as_str()));
        proof {
            assert(parts@.map_values(|l: Vec<char>| l@) =~= prev.map_values(|l: Vec<char>| l@).push(
                failures@[i as int]@,
            ));
            assert(failures@.take(i + 1).map_values(|f: String| f@) =~= failures@.take(
                i as int,
            ).map_values(|f: String| f@).push(failures@[i as int]@));
        }
        i = i + 1;
    }
    proof {
        assert(failures@.take(failures@.len() as int) =~= failures@);
    }
    let sep = chars_of("; ");
    let joined = string_of(join_chars(parts.as_slice(), sep.as_slice()).as_slice());
    let mut e = "These shortcuts could not be registered, most likely because another application already owns them: ".to_owned();
    e.append(joined.as_str());
    Err(e)
}

/// What a tray menu entry does.
#[derive(Clone, Copy, Debug, PartialEq, Eq)]
pub enum MenuAction {
    Home,
    Toggle,
    Flush,
    Clear,
    Stack,
    History,
    Settings,
    Quit,
    Remove,
}

/// The action behind a tray menu entry's id.
pub open spec fn menu_spec(id: Seq<char>) -> Option<MenuAction> {
    if id == "home"@ {
        Some(MenuAction::Home)
    } else if id == "toggle"@ {
        Some(MenuAction::Toggle)
    } else if id == "flush"@ {
        Some(MenuAction::Flush)
    } else if id == "clear"@ {
        Some(MenuAction::Clear)
    } else if id == "hud"@ {
        Some(MenuAction::Stack)
    } else if id == "history"@ {
        Some(MenuAction::History)
    } else if id == "settings"@ {
        Some(MenuAction::Settings)
    } else if id == "quit"@ {
        Some(MenuAction::Quit)
    } else if id == "uninstall"@ {
        Some(MenuAction::Remove)
    } else {
        None
    }
}

pub fn menu_action(id: &str) -> (r: Option<MenuAction>)
    ensures
        r == menu_spec(id@),
{
    let n = chars_of(id);
    if is_text(n.as_slice(), "home") {
        Some(MenuAction::Home)
    } else if is_text(n.as_slice(), "toggle") {
        Some(MenuAction::Toggle)
    } else if is_text(n.as_slice(), "flush") {
        Some(MenuAction::Flush)
    } else if is_text(n.as_slice(), "clear") {
        Some(MenuAction::Clear)
    } else if is_text(n.as_slice(), "hud") {
        Some(MenuAction::Stack)
    } else if is_text(n.as_slice(), "history") {
        Some(MenuAction::History)
    } else if is_text(n.as_slice(), "settings") {
        Some(MenuAction::Settings)
    } else if is_text(n.as_slice(), "quit") {
        Some(MenuAction::Quit)
    } else if is_text(n.as_slice(), "uninstall") {
        Some(MenuAction::Remove)
    } else {
        None
    }
}

} // verus!
