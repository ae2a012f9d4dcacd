//! User settings, and the rules the session reads out of them.

use vstd::prelude::*;

use crate::history::DEFAULT_LIMIT;
use crate::template::{default_template, Template};
use crate::text::{chars_eq, chars_of, trim, trim_chars};

verus! {

/// What goes onto the clipboard when a session is flushed.
#[derive(Clone, Copy, Debug, PartialEq, Eq)]
pub enum PasteFormat {
    /// Plain text and nothing else.
    Plain,
    /// Rich text with the images embedded, and the plain block alongside.
    Rich,
}

impl PasteFormat {
    pub fn is_rich(self) -> (b: bool)
        ensures
            b == (self is Rich),
    {
        match self {
            PasteFormat::Rich => true,
            PasteFormat::Plain => false,
        }
    }
}

impl Default for PasteFormat {
    fn default() -> (r: Self)
        ensures
            r is Rich,
    {
        PasteFormat::Rich
    }
}

/// Where the stack window parks itself.
#[derive(Clone, Copy, Debug, PartialEq, Eq)]
pub enum HudCorner {
    TopLeft,
    TopRight,
    BottomRight,
    BottomLeft,
}

impl Default for HudCorner {
    fn default() -> (r: Self)
        ensures
            r is BottomRight,
    {
        HudCorner::BottomRight
    }
}

/// What a session will and will not accept.
#[derive(Clone, Copy, Debug, PartialEq, Eq)]
pub struct CapturePolicy {
    /// Skip a fragment already present in this session.
    pub dedupe: bool,
    /// Accept images off the clipboard.
    pub capture_images: bool,
    /// Accept copied file lists.
    pub capture_files: bool,
    /// Hard cap on stack size. Zero means no limit.
    pub max_items: usize,
}

impl Default for CapturePolicy {
    fn default() -> (r: Self)
        ensures
            r.dedupe,
            r.capture_images,
            r.capture_files,
            r.max_items == 0,
    {
        CapturePolicy { dedupe: true, capture_images: true, capture_files: true, max_items: 0 }
    }
}

/// Global shortcuts, in the accelerator syntax the OS layer understands.
/// `CmdOrCtrl` resolves to Command on macOS and Control elsewhere.
#[derive(Clone, Debug, PartialEq, Eq)]
pub struct Hotkeys {
    /// Open a session, or close and discard the open one.
    pub toggle_session: String,
    /// Render the stack and paste it into the focused window.
    pub flush: String,
    /// Discard the session without pasting.
    pub cancel: String,
    /// Drop the most recent capture.
    pub undo_last: String,
    /// Show or hide the stack window.
    pub toggle_hud: String,
    /// Open the list of past sessions.
    pub history: String,
}

/// The names of the six shortcuts, in the order the settings list them.
pub open spec fn hotkey_names() -> Seq<Seq<char>> {
    seq![
        "toggle_session"@,
        "flush"@,
        "cancel"@,
        "undo_last"@,
        "toggle_hud"@,
        "history"@,
    ]
}

/// The accelerators of the six shortcuts, in the same order.
pub open spec fn hotkey_values(h: Hotkeys) -> Seq<Seq<char>> {
    seq![
        h.toggle_session@,
        h.flush@,
        h.cancel@,
        h.undo_last@,
        h.toggle_hud@,
        h.history@,
    ]
}

impl Default for Hotkeys {
    /// Ctrl+Alt, because Ctrl+Shift+C and Ctrl+Shift+V are already copy and
    /// paste in most terminals.
    fn default() -> (r: Self)
        ensures
            r.toggle_session@ == "CmdOrCtrl+Alt+C"@,
            r.flush@ == "CmdOrCtrl+Alt+V"@,
            r.cancel@ == "CmdOrCtrl+Alt+X"@,
            r.undo_last@ == "CmdOrCtrl+Alt+Z"@,
            r.toggle_hud@ == "CmdOrCtrl+Alt+S"@,
            r.history@ == "CmdOrCtrl+Alt+H"@,
    {
        Hotkeys {
            toggle_session: "CmdOrCtrl+Alt+C".to_owned(),
            flush: "CmdOrCtrl+Alt+V".to_owned(),
            cancel: "CmdOrCtrl+Alt+X".to_owned(),
            undo_last: "CmdOrCtrl+Alt+Z".to_owned(),
            toggle_hud: "CmdOrCtrl+Alt+S".to_owned(),
            history: "CmdOrCtrl+Alt+H".to_owned(),
        }
    }
}

impl Hotkeys {
    /// Each shortcut with its name, in the order the settings list them.
    pub fn all(&self) -> (r: [(&'static str, &str); 6])
        ensures
            forall|i: int|
                0 <= i < 6 ==> (#[trigger] r@[i]).0@ == hotkey_names()[i] && r@[i].1@
                    == hotkey_values(*self)[i],
    {
        let r = [
            ("toggle_session", self.toggle_session.as_str()),
            ("flush", self.flush.as_str()),
            ("cancel", self.cancel.as_str()),
            ("undo_last", self.undo_last.as_str()),
            ("toggle_hud", self.toggle_hud.as_str()),
            ("history", self.history.as_str()),
        ];
        proof {
            assert(r@[0].0@ == hotkey_names()[0]);
            assert(r@[1].0@ == hotkey_names()[1]);
            assert(r@[2].0@ == hotkey_names()[2]);
            assert(r@[3].0@ == hotkey_names()[3]);
            assert(r@[4].0@ == hotkey_names()[4]);
            assert(r@[5].0@ == hotkey_names()[5]);
        }
        r
    }
}

/// How the app behaves around a session.
#[derive(Clone, Debug, PartialEq, Eq)]
pub struct Behavior {
    /// Leave the stack intact after a flush so the same block can be pasted
    /// again.
    pub keep_open_after_flush: bool,
    /// Send the paste keystroke after putting the block on the clipboard.
    pub auto_paste: bool,
    /// Put back whatever was on the clipboard before the session, once the
    /// paste has landed.
    pub restore_clipboard_after_flush: bool,
    /// Take whatever is already on the clipboard as the first item when a
    /// session opens.
    pub capture_clipboard_on_start: bool,
    /// Clipboard poll period while a session is open, in milliseconds.
    pub poll_interval_ms: u64,
    /// Milliseconds to wait between setting the clipboard and sending the
    /// paste keystroke.
    pub paste_delay_ms: u64,
    /// Show the floating stack window while a session is open.
    pub show_hud: bool,
    pub hud_corner: HudCorner,
    /// Record the window title a fragment came from, for `{source}`.
    pub track_source_window: bool,
    /// Launch on login.
    pub autostart: bool,
    /// Whether the pasted block carries formatting and images.
    pub paste_format: PasteFormat,
    /// How many finished sessions to keep for replaying.
    pub history_limit: usize,
    /// Archive a session when it is pasted.
    pub keep_history: bool,
    /// Look for a new version on startup, and offer it.
    pub check_for_updates: bool,
}

impl Default for Behavior {
    fn default() -> (r: Self)
        ensures
            !r.keep_open_after_flush,
            r.auto_paste,
            r.restore_clipboard_after_flush,
            !r.capture_clipboard_on_start,
            r.poll_interval_ms == 180,
            r.paste_delay_ms == 120,
            r.show_hud,
            r.hud_corner is BottomRight,
            r.track_source_window,
            r.autostart,
            r.paste_format is Rich,
            r.history_limit == DEFAULT_LIMIT,
            r.keep_history,
            r.check_for_updates,
    {
        Behavior {
            keep_open_after_flush: false,
            auto_paste: true,
            restore_clipboard_after_flush: true,
            capture_clipboard_on_start: false,
            poll_interval_ms: 180,
            paste_delay_ms: 120,
            show_hud: true,
            hud_corner: HudCorner::default(),
            track_source_window: true,
            autostart: true,
            paste_format: PasteFormat::Rich,
            history_limit: DEFAULT_LIMIT,
            keep_history: true,
            check_for_updates: true,
        }
    }
}

/// All the settings.
#[derive(Clone, Debug, PartialEq, Eq)]
pub struct Config {
    pub hotkeys: Hotkeys,
    pub capture: CapturePolicy,
    pub template: Template,
    pub behavior: Behavior,
    /// Whether the introduction has been seen.
    pub onboarded: bool,
}

impl Default for Config {
    fn default() -> (r: Self)
        ensures
            r.hotkeys.toggle_session@ == "CmdOrCtrl+Alt+C"@,
            r.hotkeys.flush@ == "CmdOrCtrl+Alt+V"@,
            r.hotkeys.cancel@ == "CmdOrCtrl+Alt+X"@,
            r.hotkeys.undo_last@ == "CmdOrCtrl+Alt+Z"@,
            r.hotkeys.toggle_hud@ == "CmdOrCtrl+Alt+S"@,
            r.hotkeys.history@ == "CmdOrCtrl+Alt+H"@,
            r.capture == (CapturePolicy {
                dedupe: true,
                capture_images: true,
                capture_files: true,
                max_items: 0,
            }),
            r.template@ == default_template(),
            !r.behavior.keep_open_after_flush,
            r.behavior.auto_paste,
            r.behavior.restore_clipboard_after_flush,
            !r.behavior.capture_clipboard_on_start,
            r.behavior.poll_interval_ms == 180,
            r.behavior.paste_delay_ms == 120,
            r.behavior.show_hud,
            r.behavior.hud_corner is BottomRight,
            r.behavior.track_source_window,
            r.behavior.autostart,
            r.behavior.paste_format is Rich,
            r.behavior.history_limit == DEFAULT_LIMIT,
            r.behavior.keep_history,
            r.behavior.check_for_updates,
            !r.onboarded,
    {
        Config {
            hotkeys: Hotkeys::default(),
            capture: CapturePolicy::default(),
            template: Template::default(),
            behavior: Behavior::default(),
            onboarded: false,
        }
    }
}

/// A setting that is wrong in a way the app can survive, reported to the
/// settings pane rather than raised as an error.
#[derive(Clone, Debug, PartialEq, Eq)]
pub struct Warning {
    pub field: String,
    pub message: String,
}

/// A warning, as the field it names and its message.
pub open spec fn warning_view(w: Warning) -> (Seq<char>, Seq<char>) {
    (w.field@, w.message@)
}

/// The message for a shortcut left empty.
pub open spec fn no_shortcut_message() -> Seq<char> {
    "No shortcut set, so this action can only be reached from the tray."@
}

/// The message for a shortcut equal to the earlier one called `other`.
pub open spec fn same_shortcut_message(other: Seq<char>) -> Seq<char> {
    "Same shortcut as "@ + other + "; only one of them will fire."@
}

/// The first of the first `n` accelerators equal to `v`.
pub open spec fn first_equal(vals: Seq<Seq<char>>, v: Seq<char>, n: int) -> Option<int>
    decreases n,
{
    if n <= 0 {
        None
    } else {
        match first_equal(vals, v, n - 1) {
            Some(j) => Some(j),
            None => if vals[n - 1] == v {
                Some(n - 1)
            } else {
                None
            },
        }
    }
}

/// What the shortcut at `i` is warned about: nothing set (blank after
/// trimming), or the same accelerator as an earlier one, named by the first
/// such.
pub open spec fn hotkey_warning(
    names: Seq<Seq<char>>,
    vals: Seq<Seq<char>>,
    i: int,
) -> Seq<(Seq<char>, Seq<char>)> {
    let field = "hotkeys."@ + names[i];
    if trim(vals[i]).len() == 0 {
        seq![(field, no_shortcut_message())]
    } else {
        match first_equal(vals, vals[i], i) {
            Some(j) => seq![(field, same_shortcut_message(names[j]))],
            None => seq![],
        }
    }
}

/// The warnings about the first `n` shortcuts, in order.
pub open spec fn hotkey_warnings(
    names: Seq<Seq<char>>,
    vals: Seq<Seq<char>>,
    n: int,
) -> Seq<(Seq<char>, Seq<char>)>
    decreases n,
{
    if n <= 0 {
        seq![]
    } else {
        hotkey_warnings(names, vals, n - 1) + hotkey_warning(names, vals, n - 1)
    }
}

/// `w` when `cond` holds, else nothing.
pub open spec fn when(cond: bool, field: Seq<char>, message: Seq<char>) -> Seq<
    (Seq<char>, Seq<char>),
> {
    if cond {
        seq![(field, message)]
    } else {
        seq![]
    }
}

/// Every warning about a configuration, in the order the settings pane
/// shows them: the shortcuts first, then the poll interval, the paste
/// delay, the history limit, the paste format and what is captured.
pub open spec fn config_warnings(c: Config) -> Seq<(Seq<char>, Seq<char>)> {
    let b = c.behavior;
    hotkey_warnings(hotkey_names(), hotkey_values(c.hotkeys), 6) + when(
        b.poll_interval_ms < 30,
        "behavior.poll_interval_ms"@,
        "Below 30 ms the watcher burns CPU for no gain."@,
    ) + when(
        b.poll_interval_ms > 1000,
        "behavior.poll_interval_ms"@,
        "Above 1 s, fast successive copies can be missed."@,
    ) + when(
        b.auto_paste && b.paste_delay_ms < 30,
        "behavior.paste_delay_ms"@,
        "Too short: some applications will paste the previous clipboard value."@,
    ) + when(
        b.keep_history && b.history_limit == 0,
        "behavior.history_limit"@,
        "Zero means nothing is kept, so history is effectively off."@,
    ) + when(
        c.capture.capture_images && !(b.paste_format is Rich),
        "behavior.paste_format"@,
        "Plain text cannot carry an image, so captured images will paste as their placeholder."@,
    ) + when(
        !c.capture.capture_images && !c.capture.capture_files,
        "capture"@,
        "Only text will be captured."@,
    )
}

proof fn lemma_first_equal_stays(vals: Seq<Seq<char>>, v: Seq<char>, m: int, n: int)
    requires
        m <= n,
        first_equal(vals, v, m) is Some,
    ensures
        first_equal(vals, v, n) == first_equal(vals, v, m),
    decreases n - m,
{
    if m < n {
        lemma_first_equal_stays(vals, v, m, n - 1);
    }
}

/// Add a warning to the list.
fn warn(out: &mut Vec<Warning>, field: &str, message: &str)
    ensures
        final(out)@.map_values(|w: Warning| warning_view(w)) == old(out)@.map_values(
            |w: Warning| warning_view(w),
        ).push((field@, message@)),
{
    let ghost before = out@;
    out.push(Warning { field: field.to_owned(), message: message.to_owned() });
    proof {
        assert(out@.map_values(|w: Warning| warning_view(w)) =~= before.map_values(
            |w: Warning| warning_view(w),
        ).push((field@, message@)));
    }
}

/// Where among the first `n` accelerators the first one equal to `v` is.
fn find_equal(keys: &[(&'static str, &str); 6], v: &str, n: usize) -> (r: Option<usize>)
    requires
        n <= 6,
    ensures
        match r {
            Some(j) => j < n && first_equal(
                keys@.map_values(|k: (&'static str, &str)| k.1@),
                v@,
                n as int,
            ) == Some(j as int),
            None => first_equal(keys@.map_values(|k: (&'static str, &str)| k.1@), v@, n as int)
                is None,
        },
{
    let ghost vals = keys@.map_values(|k: (&'static str, &str)| k.1@);
    let target = chars_of(v);
    let mut j: usize = 0;
    while j < n
        invariant
            j <= n <= 6,
            vals == keys@.map_values(|k: (&'static str, &str)| k.1@),
            target@ == v@,
            first_equal(vals, v@, j as int) is None,
        decreases n - j,
    {
        let other = chars_of(keys[j].1);
        if chars_eq(other.as_slice(), target.as_slice()) {
            proof {
                assert(vals[j as int] == v@);
                assert(first_equal(vals, v@, j + 1) == Some(j as int));
                lemma_first_equal_stays(vals, v@, j + 1, n as int);
            }
            return Some(j);
        }
        j = j + 1;
    }
    None
}

impl Config {
    /// Settings that are usable but probably not what the user meant: a
    /// shortcut left empty or equal to an earlier one, a poll interval below
    /// 30 ms or above 1 s, a paste delay below 30 ms when pasting is
    /// automatic, a history limit of zero while history is kept, images
    /// captured into plain text, and nothing but text captured.
    pub fn warnings(&self) -> (r: Vec<Warning>)
        ensures
            r@.map_values(|w: Warning| warning_view(w)) == config_warnings(*self),
    {
        let mut out: Vec<Warning> = Vec::new();
        let keys = self.hotkeys.all();
        let ghost names = hotkey_names();
        let ghost vals = hotkey_values(self.hotkeys);
        proof {
            assert(keys@.map_values(|k: (&'static str, &str)| k.1@) =~= vals);
            assert(out@.map_values(|w: Warning| warning_view(w)) =~= hotkey_warnings(names, vals, 0));
        }
        let mut i: usize = 0;
        while i < 6
            invariant
                i <= 6,
                names == hotkey_names(),
                vals == hotkey_values(self.hotkeys),
                keys@.map_values(|k: (&'static str, &str)| k.1@) == vals,
                forall|k: int| 0 <= k < 6 ==> (#[trigger] keys@[k]).0@ == names[k],
                out@.map_values(|w: Warning| warning_view(w)) == hotkey_warnings(
                    names,
                    vals,
                    i as int,
                ),
            decreases 6 - i,
        {
            let (name, accel) = keys[i];
            proof {
                assert(keys@[i as int].1@ == vals[i as int]);
                assert(name@ == names[i as int]);
            }
            let mut field = "hotkeys.".to_owned();
            field.append(name);
            let a = chars_of(accel);
            let t = trim_chars(a.as_slice());
            if t.len() == 0 {
                warn(&mut out, field.as_str(), "No shortcut set, so this action can only be reached from the tray.");
            } else {
                match find_equal(&keys, accel, i) {
                    Some(j) => {
                        let mut message = "Same shortcut as ".to_owned();
                        message.append(keys[j].0);
                        message.append("; only one of them will fire.");
                        warn(&mut out, field.as_str(), message.as_str());
                    },
                    None => {},
                }
            }
            proof {
                assert(out@.map_values(|w: Warning| warning_view(w)) =~= hotkey_warnings(
                    names,
                    vals,
                    i + 1,
                ));
            }
            i = i + 1;
        }
        let b = &self.behavior;
        if b.poll_interval_ms < 30 {
            warn(&mut out, "behavior.poll_interval_ms", "Below 30 ms the watcher burns CPU for no gain.");
        }
        if b.poll_interval_ms > 1000 {
            warn(&mut out, "behavior.poll_interval_ms", "Above 1 s, fast successive copies can be missed.");
        }
        if b.auto_paste && b.paste_delay_ms < 30 {
            warn(
                &mut out,
                "behavior.paste_delay_ms",
                "Too short: some applications will paste the previous clipboard value.",
            );
        }
        if b.keep_history && b.history_limit == 0 {
            warn(
                &mut out,
                "behavior.history_limit",
                "Zero means nothing is kept, so history is effectively off.",
            );
        }
        if self.capture.capture_images && !b.paste_format.is_rich() {
            warn(
                &mut out,
                "behavior.paste_format",
                "Plain text cannot carry an image, so captured images will paste as their placeholder.",
            );
        }
        if !self.capture.capture_images && !self.capture.capture_files {
            warn(&mut out, "capture", "Only text will be captured.");
        }
        proof {
            assert(out@.map_values(|w: Warning| warning_view(w)) =~= config_warnings(*self));
        }
        out
    }
}

/// Whether a list of warnings names this field.
pub open spec fn warns_about(ws: Seq<(Seq<char>, Seq<char>)>, field: Seq<char>) -> bool {
    exists|i: int| 0 <= i < ws.len() && (#[trigger] ws[i]).0 == field
}

proof fn lemma_warns_add(a: Seq<(Seq<char>, Seq<char>)>, b: Seq<(Seq<char>, Seq<char>)>, f: Seq<char>)
    ensures
        warns_about(a + b, f) <==> (warns_about(a, f) || warns_about(b, f)),
{
    if warns_about(a + b, f) {
        let i = choose|i: int| 0 <= i < (a + b).len() && (#[trigger] (a + b)[i]).0 == f;
        if i < a.len() {
            assert(a[i] == (a + b)[i]);
        } else {
            assert(b[i - a.len()] == (a + b)[i]);
        }
    }
    if warns_about(a, f) {
        let i = choose|i: int| 0 <= i < a.len() && (#[trigger] a[i]).0 == f;
        assert((a + b)[i] == a[i]);
    }
    if warns_about(b, f) {
        let i = choose|i: int| 0 <= i < b.len() && (#[trigger] b[i]).0 == f;
        assert((a + b)[i + a.len()] == b[i]);
    }
}

proof fn lemma_when(cond: bool, field: Seq<char>, message: Seq<char>)
    ensures
        forall|f: Seq<char>|
            #[trigger] warns_about(when(cond, field, message), f) <==> (cond && field == f),
{
    if cond {
        assert(when(cond, field, message)[0].0 == field);
    }
}

/// The shortcut warnings name, among the first `n` shortcuts, exactly those
/// with something to warn about.
proof fn lemma_hotkey_fields(names: Seq<Seq<char>>, vals: Seq<Seq<char>>, n: int, f: Seq<char>)
    requires
        0 <= n,
    ensures
        warns_about(hotkey_warnings(names, vals, n), f) <==> exists|m: int|
            0 <= m < n && (#[trigger] hotkey_warning(names, vals, m)).len() > 0 && f == "hotkeys."@
                + names[m],
    decreases n,
{
    if n > 0 {
        lemma_hotkey_fields(names, vals, n - 1, f);
        lemma_warns_add(hotkey_warnings(names, vals, n - 1), hotkey_warning(names, vals, n - 1), f);
        let w = hotkey_warning(names, vals, n - 1);
        if w.len() > 0 {
            assert(w[0].0 == "hotkeys."@ + names[n - 1]);
        }
        if exists|m: int|
            0 <= m < n && (#[trigger] hotkey_warning(names, vals, m)).len() > 0 && f == "hotkeys."@
                + names[m] {
            let m = choose|m: int|
                0 <= m < n && (#[trigger] hotkey_warning(names, vals, m)).len() > 0 && f
                    == "hotkeys."@ + names[m];
            if m == n - 1 {
                assert(w[0].0 == f);
            }
        }
    } else {
        assert(hotkey_warnings(names, vals, n).len() == 0);
    }
}

proof fn lemma_first_equal_some(vals: Seq<Seq<char>>, v: Seq<char>, n: int)
    requires
        0 <= n <= vals.len(),
    ensures
        first_equal(vals, v, n) is Some <==> exists|j: int| 0 <= j < n && vals[j] == v,
        first_equal(vals, v, n) matches Some(j) ==> 0 <= j < n && vals[j] == v && forall|k: int|
            0 <= k < j ==> vals[k] != v,
    decreases n,
{
    if n > 0 {
        lemma_first_equal_some(vals, v, n - 1);
    }
}

/// A field under `hotkeys.` starts with `h`; no other warning's does.
proof fn lemma_field_heads(c: Config)
    ensures
        forall|x: Seq<char>| (#[trigger] ("hotkeys."@ + x))[0] == 'h',
        "behavior.poll_interval_ms"@[0] == 'b',
        "behavior.paste_delay_ms"@[0] == 'b',
        "behavior.history_limit"@[0] == 'b',
        "behavior.paste_format"@[0] == 'b',
        "capture"@[0] == 'c',
{
    reveal_strlit("hotkeys.");
    reveal_strlit("behavior.poll_interval_ms");
    reveal_strlit("behavior.paste_delay_ms");
    reveal_strlit("behavior.history_limit");
    reveal_strlit("behavior.paste_format");
    reveal_strlit("capture");
}

/// Each setting outside the shortcuts is warned about exactly when its
/// condition holds: the poll interval below 30 ms or above 1 s, the paste
/// delay below 30 ms with automatic pasting, a history limit of zero with
/// history kept, images captured into plain text, and neither images nor
/// files captured.
pub proof fn law_setting_warnings(c: Config)
    ensures
        warns_about(config_warnings(c), "behavior.poll_interval_ms"@) <==> (c.behavior.poll_interval_ms
            < 30 || c.behavior.poll_interval_ms > 1000),
        warns_about(config_warnings(c), "behavior.paste_delay_ms"@) <==> (c.behavior.auto_paste
            && c.behavior.paste_delay_ms < 30),
        warns_about(config_warnings(c), "behavior.history_limit"@) <==> (c.behavior.keep_history
            && c.behavior.history_limit == 0),
        warns_about(config_warnings(c), "behavior.paste_format"@) <==> (c.capture.capture_images
            && !(c.behavior.paste_format is Rich)),
        warns_about(config_warnings(c), "capture"@) <==> (!c.capture.capture_images
            && !c.capture.capture_files),
{
    reveal_strlit("behavior.poll_interval_ms");
    reveal_strlit("behavior.paste_delay_ms");
    reveal_strlit("behavior.history_limit");
    reveal_strlit("behavior.paste_format");
    reveal_strlit("capture");
    lemma_field_heads(c);
    let b = c.behavior;
    let h = hotkey_warnings(hotkey_names(), hotkey_values(c.hotkeys), 6);
    let w1 = when(
        b.poll_interval_ms < 30,
        "behavior.poll_interval_ms"@,
        "Below 30 ms the watcher burns CPU for no gain."@,
    );
    let w2 = when(
        b.poll_interval_ms > 1000,
        "behavior.poll_interval_ms"@,
        "Above 1 s, fast successive copies can be missed."@,
    );
    let w3 = when(
        b.auto_paste && b.paste_delay_ms < 30,
        "behavior.paste_delay_ms"@,
        "Too short: some applications will paste the previous clipboard value."@,
    );
    let w4 = when(
        b.keep_history && b.history_limit == 0,
        "behavior.history_limit"@,
        "Zero means nothing is kept, so history is effectively off."@,
    );
    let w5 = when(
        c.capture.capture_images && !(b.paste_format is Rich),
        "behavior.paste_format"@,
        "Plain text cannot carry an image, so captured images will paste as their placeholder."@,
    );
    let w6 = when(
        !c.capture.capture_images && !c.capture.capture_files,
        "capture"@,
        "Only text will be captured."@,
    );
    lemma_when(
        b.poll_interval_ms < 30,
        "behavior.poll_interval_ms"@,
        "Below 30 ms the watcher burns CPU for no gain."@,
    );
    lemma_when(
        b.poll_interval_ms > 1000,
        "behavior.poll_interval_ms"@,
        "Above 1 s, fast successive copies can be missed."@,
    );
    lemma_when(
        b.auto_paste && b.paste_delay_ms < 30,
        "behavior.paste_delay_ms"@,
        "Too short: some applications will paste the previous clipboard value."@,
    );
    lemma_when(
        b.keep_history && b.history_limit == 0,
        "behavior.history_limit"@,
        "Zero means nothing is kept, so history is effectively off."@,
    );
    lemma_when(
        c.capture.capture_images && !(b.paste_format is Rich),
        "behavior.paste_format"@,
        "Plain text cannot carry an image, so captured images will paste as their placeholder."@,
    );
    lemma_when(
        !c.capture.capture_images && !c.capture.capture_files,
        "capture"@,
        "Only text will be captured."@,
    );
    assert(config_warnings(c) == h + w1 + w2 + w3 + w4 + w5 + w6);
    lemma_setting_field(c, h, w1, w2, w3, w4, w5, w6, "behavior.poll_interval_ms"@);
    lemma_setting_field(c, h, w1, w2, w3, w4, w5, w6, "behavior.paste_delay_ms"@);
    lemma_setting_field(c, h, w1, w2, w3, w4, w5, w6, "behavior.history_limit"@);
    lemma_setting_field(c, h, w1, w2, w3, w4, w5, w6, "behavior.paste_format"@);
    lemma_setting_field(c, h, w1, w2, w3, w4, w5, w6, "capture"@);
}

/// A field that does not start with `h` is warned about exactly when one of
/// the setting warnings names it.
proof fn lemma_setting_field(
    c: Config,
    h: Seq<(Seq<char>, Seq<char>)>,
    w1: Seq<(Seq<char>, Seq<char>)>,
    w2: Seq<(Seq<char>, Seq<char>)>,
    w3: Seq<(Seq<char>, Seq<char>)>,
    w4: Seq<(Seq<char>, Seq<char>)>,
    w5: Seq<(Seq<char>, Seq<char>)>,
    w6: Seq<(Seq<char>, Seq<char>)>,
    f: Seq<char>,
)
    requires
        h == hotkey_warnings(hotkey_names(), hotkey_values(c.hotkeys), 6),
        f.len() > 0,
        f[0] != 'h',
    ensures
        warns_about(h + w1 + w2 + w3 + w4 + w5 + w6, f) <==> (warns_about(w1, f) || warns_about(
            w2,
            f,
        ) || warns_about(w3, f) || warns_about(w4, f) || warns_about(w5, f) || warns_about(w6, f)),
{
    lemma_field_heads(c);
    lemma_hotkey_fields(hotkey_names(), hotkey_values(c.hotkeys), 6, f);
    if warns_about(h, f) {
        let m = choose|m: int|
            0 <= m < 6 && (#[trigger] hotkey_warning(hotkey_names(), hotkey_values(c.hotkeys), m)).len()
                > 0 && f == "hotkeys."@ + hotkey_names()[m];
        assert(("hotkeys."@ + hotkey_names()[m])[0] == 'h');
    }
    lemma_warns_add(h + w1 + w2 + w3 + w4 + w5, w6, f);
    lemma_warns_add(h + w1 + w2 + w3 + w4, w5, f);
    lemma_warns_add(h + w1 + w2 + w3, w4, f);
    lemma_warns_add(h + w1 + w2, w3, f);
    lemma_warns_add(h + w1, w2, f);
    lemma_warns_add(h, w1, f);
}

/// A field starting with `h` can only be one of the shortcut warnings.
proof fn lemma_shortcut_field(c: Config, f: Seq<char>)
    requires
        f.len() > 0,
        f[0] == 'h',
    ensures
        warns_about(config_warnings(c), f) <==> warns_about(
            hotkey_warnings(hotkey_names(), hotkey_values(c.hotkeys), 6),
            f,
        ),
{
    reveal_strlit("behavior.poll_interval_ms");
    reveal_strlit("behavior.paste_delay_ms");
    reveal_strlit("behavior.history_limit");
    reveal_strlit("behavior.paste_format");
    reveal_strlit("capture");
    let b = c.behavior;
    let h = hotkey_warnings(hotkey_names(), hotkey_values(c.hotkeys), 6);
    let w1 = when(
        b.poll_interval_ms < 30,
        "behavior.poll_interval_ms"@,
        "Below 30 ms the watcher burns CPU for no gain."@,
    );
    let w2 = when(
        b.poll_interval_ms > 1000,
        "behavior.poll_interval_ms"@,
        "Above 1 s, fast successive copies can be missed."@,
    );
    let w3 = when(
        b.auto_paste && b.paste_delay_ms < 30,
        "behavior.paste_delay_ms"@,
        "Too short: some applications will paste the previous clipboard value."@,
    );
    let w4 = when(
        b.keep_history && b.history_limit == 0,
        "behavior.history_limit"@,
        "Zero means nothing is kept, so history is effectively off."@,
    );
    let w5 = when(
        c.capture.capture_images && !(b.paste_format is Rich),
        "behavior.paste_format"@,
        "Plain text cannot carry an image, so captured images will paste as their placeholder."@,
    );
    let w6 = when(
        !c.capture.capture_images && !c.capture.capture_files,
        "capture"@,
        "Only text will be captured."@,
    );
    lemma_when(
        b.poll_interval_ms < 30,
        "behavior.poll_interval_ms"@,
        "Below 30 ms the watcher burns CPU for no gain."@,
    );
    lemma_when(
        b.poll_interval_ms > 1000,
        "behavior.poll_interval_ms"@,
        "Above 1 s, fast successive copies can be missed."@,
    );
    lemma_when(
        b.auto_paste && b.paste_delay_ms < 30,
        "behavior.paste_delay_ms"@,
        "Too short: some applications will paste the previous clipboard value."@,
    );
    lemma_when(
        b.keep_history && b.history_limit == 0,
        "behavior.history_limit"@,
        "Zero means nothing is kept, so history is effectively off."@,
    );
    lemma_when(
        c.capture.capture_images && !(b.paste_format is Rich),
        "behavior.paste_format"@,
        "Plain text cannot carry an image, so captured images will paste as their placeholder."@,
    );
    lemma_when(
        !c.capture.capture_images && !c.capture.capture_files,
        "capture"@,
        "Only text will be captured."@,
    );
    assert(config_warnings(c) == h + w1 + w2 + w3 + w4 + w5 + w6);
    lemma_warns_add(h + w1 + w2 + w3 + w4 + w5, w6, f);
    lemma_warns_add(h + w1 + w2 + w3 + w4, w5, f);
    lemma_warns_add(h + w1 + w2 + w3, w4, f);
    lemma_warns_add(h + w1 + w2, w3, f);
    lemma_warns_add(h + w1, w2, f);
    lemma_warns_add(h, w1, f);
}

/// The warning about shortcut `i` is in the warnings about the first `n`.
proof fn lemma_hotkey_warning_listed(names: Seq<Seq<char>>, vals: Seq<Seq<char>>, i: int, n: int)
    requires
        0 <= i < n,
        hotkey_warning(names, vals, i).len() > 0,
    ensures
        hotkey_warnings(names, vals, n).contains(hotkey_warning(names, vals, i)[0]),
    decreases n,
{
    let w = hotkey_warnings(names, vals, n - 1);
    let x = hotkey_warning(names, vals, n - 1);
    if i < n - 1 {
        lemma_hotkey_warning_listed(names, vals, i, n - 1);
        let k = choose|k: int| 0 <= k < w.len() && w[k] == hotkey_warning(names, vals, i)[0];
        assert((w + x)[k] == w[k]);
    } else {
        assert((w + x)[w.len() as int] == x[0]);
    }
}

/// A shortcut is warned about exactly when it is blank or has the
/// accelerator of an earlier shortcut. A blank one is told it can only be
/// reached from the tray; a repeat is told which shortcut it repeats, the
/// first earlier one with that accelerator.
pub proof fn law_shortcut_warnings(c: Config, i: int, j: int)
    requires
        0 <= i < 6,
    ensures
        ({
            let names = hotkey_names();
            let vals = hotkey_values(c.hotkeys);
            let field = "hotkeys."@ + names[i];
            &&& warns_about(config_warnings(c), field) <==> (trim(vals[i]).len() == 0 || exists|k: int|
                0 <= k < i && vals[k] == vals[i])
            &&& trim(vals[i]).len() == 0 ==> config_warnings(c).contains(
                (field, no_shortcut_message()),
            )
            &&& (trim(vals[i]).len() > 0 && 0 <= j < i && vals[j] == vals[i] && forall|k: int|
                0 <= k < j ==> vals[k] != vals[i]) ==> config_warnings(c).contains(
                (field, same_shortcut_message(names[j])),
            )
        }),
{
    reveal_strlit("hotkeys.");
    reveal_strlit("toggle_session");
    reveal_strlit("flush");
    reveal_strlit("cancel");
    reveal_strlit("undo_last");
    reveal_strlit("toggle_hud");
    reveal_strlit("history");
    let names = hotkey_names();
    let vals = hotkey_values(c.hotkeys);
    let p = "hotkeys."@;
    let field = p + names[i];
    let h = hotkey_warnings(names, vals, 6);
    assert(field[0] == 'h');
    lemma_shortcut_field(c, field);
    lemma_hotkey_fields(names, vals, 6, field);
    lemma_first_equal_some(vals, vals[i], i);
    assert forall|m: int| 0 <= m < 6 && field == p + names[m] implies m == i by {
        assert((p + names[m]).skip(p.len() as int) =~= names[m]);
        assert((p + names[i]).skip(p.len() as int) =~= names[i]);
    }
    if hotkey_warning(names, vals, i).len() > 0 {
        lemma_hotkey_warning_listed(names, vals, i, 6);
        assert(h.contains(hotkey_warning(names, vals, i)[0]));
        let k = choose|k: int| 0 <= k < h.len() && h[k] == hotkey_warning(names, vals, i)[0];
        assert(config_warnings(c)[k] == h[k]);
        assert(warns_about(h, field));
    }
    if (trim(vals[i]).len() > 0 && 0 <= j < i && vals[j] == vals[i] && forall|k: int|
        0 <= k < j ==> vals[k] != vals[i]) {
        assert(first_equal(vals, vals[i], i) == Some(j));
    }
}

} // verus!

