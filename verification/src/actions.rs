//! The decisions behind every operation the app performs.
//!
//! The shortcut handler, the tray menu and the stack window all reach the
//! same operations. What each one does to the session and the history, and
//! what the user is told, is decided here; the app only carries it out
//! around the clipboard, the disk and the windows.

use vstd::prelude::*;

use crate::clock::{now_ms, ClockModel, ClockReading};
use crate::config::{CapturePolicy, Config};
use crate::item::{preview_of, opt_view, ClipItem, ClipKind, ClipModel, KindModel};
use crate::history::{
    has_entry, law_removed_entry_is_gone, without_entry, archived, at_least_one, combined_items, first_entry, new_entry, record_now, replay_spec,
    replay_target, selected_ids, trimmed, History, HistoryModel,
};
use crate::html::{render_html, rendered_html};
use crate::session::{
    add_text_spec, capture_spec, edit_spec, has_id, item_models, only_included, pos_of,
    session_wf, with_items, CaptureOutcome, EditError, OutcomeModel, SessionModel, SessionStatus,
};
use crate::template::{models, observed, render, rendered, Template, TemplateModel, WorldModel};
use crate::text::{decimal, decimal_string};

verus! {

/// A short message for the stack window to surface. Rejected captures are
/// reported the same way accepted ones are.
#[derive(Debug)]
pub struct Notice {
    pub level: &'static str,
    pub text: String,
}

/// A notice, as its level and its text.
pub open spec fn notice_is(n: Notice, level: Seq<char>, text: Seq<char>) -> bool {
    n.level@ == level && n.text@ == text
}

impl Notice {
    pub fn info(text: String) -> (n: Self)
        ensures
            n.level@ == "info"@,
            n.text == text,
    {
        Notice { level: "info", text }
    }

    pub fn warn(text: String) -> (n: Self)
        ensures
            n.level@ == "warn"@,
            n.text == text,
    {
        Notice { level: "warn", text }
    }

    pub fn error(text: String) -> (n: Self)
        ensures
            n.level@ == "error"@,
            n.text == text,
    {
        Notice { level: "error", text }
    }

    /// Every failed action is surfaced through here, so the wording is the
    /// same whether it came from a shortcut or a click.
    pub fn from_error(text: String) -> (n: Self)
        ensures
            n.level@ == "error"@,
            n.text == text,
    {
        Notice::error(text)
    }
}

/// Text made of a literal, a number and a literal.
fn numbered(head: &str, n: u64, tail: &str) -> (r: String)
    ensures
        r@ == head@ + decimal(n as nat) + tail@,
{
    let mut r = head.to_owned();
    let d = decimal_string(n);
    r.append(d.as_str());
    r.append(tail);
    r
}

/// Text made of a literal, a text and a literal.
fn around(head: &str, middle: &str, tail: &str) -> (r: String)
    ensures
        r@ == head@ + middle@ + tail@,
{
    let mut r = head.to_owned();
    r.append(middle);
    r.append(tail);
    r
}

/// Some fragment is an image.
pub open spec fn has_image(items: Seq<ClipModel>) -> bool {
    exists|i: int| 0 <= i < items.len() && (#[trigger] items[i]).kind is Image
}

/// Whether the block holds something plain text can only describe.
pub fn carries_an_image(items: &[&ClipItem]) -> (b: bool)
    ensures
        b == has_image(models(items@)),
{
    let ghost ms = models(items@);
    let mut i: usize = 0;
    while i < items.len()
        invariant
            i <= items@.len(),
            ms == models(items@),
            forall|k: int| 0 <= k < i ==> (#[trigger] ms[k]).kind !is Image,
        decreases items.len() - i,
    {
        match &items[i].kind {
            ClipKind::Image { .. } => {
                assert(ms[i as int].kind is Image);
                return true;
            },
            _ => {},
        }
        i = i + 1;
    }
    false
}

/// What a capture is reported as: the count when it was added, the reason
/// when it was not, and nothing for blank content or a closed session.
pub fn capture_notice(outcome: &CaptureOutcome) -> (r: Option<Notice>)
    ensures
        match outcome@ {
            OutcomeModel::Appended { count, .. } => r matches Some(n) && notice_is(
                n,
                "info"@,
                "Captured "@ + decimal(count as nat),
            ),
            OutcomeModel::Duplicate => r matches Some(n) && notice_is(
                n,
                "warn"@,
                "Already in this session"@,
            ),
            OutcomeModel::Full(limit) => r matches Some(n) && notice_is(
                n,
                "warn"@,
                "Session is full at "@ + decimal(limit as nat) + " items"@,
            ),
            OutcomeModel::Filtered(kind) => r matches Some(n) && notice_is(
                n,
                "warn"@,
                "Skipped: "@ + kind + " capture is switched off"@,
            ),
            _ => r is None,
        },
{
    match outcome {
        CaptureOutcome::Appended { count, .. } => {
            let t = numbered("Captured ", *count as u64, "");
            proof {
                reveal_strlit("");
                assert(t@ =~= "Captured "@ + decimal(*count as nat));
            }
            Some(Notice::info(t))
        },
        CaptureOutcome::Duplicate => Some(Notice::warn("Already in this session".to_owned())),
        CaptureOutcome::Full { limit } => Some(
            Notice::warn(numbered("Session is full at ", *limit as u64, " items")),
        ),
        CaptureOutcome::Filtered { kind } => Some(
            Notice::warn(around("Skipped: ", kind.as_str(), " capture is switched off")),
        ),
        CaptureOutcome::Blank => None,
        CaptureOutcome::Inactive => None,
    }
}

/// A session as it is when it opens.
pub open spec fn fresh_session(started_at_ms: u64, policy: CapturePolicy) -> SessionModel {
    SessionModel { items: seq![], next_id: 1, started_at_ms, name: None, policy }
}

/// Open a session with the capture settings, taking what is already on
/// the clipboard as its first fragment when the settings ask for that.
/// Opening over a live session starts a fresh one.
pub fn open_session(
    status: &mut SessionStatus,
    config: &Config,
    existing: Option<ClipKind>,
    source: Option<String>,
) -> (n: Notice)
    requires
        old(status).wf(),
    ensures
        final(status).wf(),
        final(status)@ matches Some(m) && exists|t: u64|
            {
                let fresh = #[trigger] fresh_session(t, config.capture);
                match existing {
                    Some(k) if config.behavior.capture_clipboard_on_start => exists|at: u64|
                        m == (#[trigger] capture_spec(fresh, k@, opt_view(source), at)).1,
                    _ => m == fresh,
                }
            },
        final(status)@ matches Some(m) && notice_is(
            n,
            "info"@,
            if m.items.len() > 0 {
                "Session open, starting from the clipboard"@
            } else {
                "Session open. Copy away."@
            },
        ),
{
    status.start(config.capture);
    let ghost t = status@->0.started_at_ms;
    let ghost fresh = fresh_session(t, config.capture);
    proof {
        assert(status@->0 =~= fresh);
    }
    let mut seeded = false;
    if config.behavior.capture_clipboard_on_start {
        match existing {
            Some(kind) => {
                let ghost k = kind@;
                let ghost src = opt_view(source);
                let outcome = status.capture(kind, source);
                seeded = outcome.accepted();
                proof {
                    let at = choose|at: u64|
                        (outcome@, status@->0) == capture_spec(fresh, k, src, at);
                    assert(status@->0 == capture_spec(fresh, k, src, at).1);
                }
            },
            None => {},
        }
    }
    if seeded {
        Notice::info("Session open, starting from the clipboard".to_owned())
    } else {
        Notice::info("Session open. Copy away.".to_owned())
    }
}

/// Throw the session away and say how many fragments went with it.
pub fn cancel_session(status: &mut SessionStatus) -> (n: Notice)
    ensures
        final(status)@ is None,
        final(status).wf(),
        notice_is(
            n,
            "info"@,
            "Session discarded ("@ + decimal(
                match old(status)@ {
                    Some(m) => m.items.len(),
                    None => 0,
                },
            ) + " items)"@,
        ),
{
    let dropped: usize = match status.cancel() {
        Some(s) => s.len(),
        None => 0,
    };
    Notice::info(numbered("Session discarded (", dropped as u64, " items)"))
}

/// Drop the most recent capture, and say what went or that there was
/// nothing to drop.
pub fn undo_last(status: &mut SessionStatus) -> (n: Notice)
    requires
        old(status).wf(),
    ensures
        final(status).wf(),
        match old(status)@ {
            Some(m) if m.items.len() > 0 => final(status)@ == Some(
                with_items(m, m.items.drop_last()),
            ) && n.level@ == "info"@ && n.text@ == "Removed "@ + preview_of(
                m.items.last().kind,
                40,
            ),
            _ => final(status)@ == old(status)@ && notice_is(n, "warn"@, "Nothing to undo"@),
        },
{
    let removed = match status.session_mut() {
        Some(s) => s.undo_last(),
        None => None,
    };
    match removed {
        Some(item) => {
            let p = item.kind.preview(40);
            let t = around("Removed ", p.as_str(), "");
            proof {
                reveal_strlit("");
                assert(t@ =~= "Removed "@ + p@);
            }
            Notice::info(t)
        },
        None => Notice::warn("Nothing to undo".to_owned()),
    }
}

/// Replace the text of one fragment with what the user typed. Emptying it
/// removes the fragment, which is worth a word; a refusal is an error.
pub fn edit_item(status: &mut SessionStatus, id: u64, text: String) -> (r: Result<
    Option<Notice>,
    String,
>)
    requires
        old(status).wf(),
    ensures
        final(status).wf(),
        match old(status)@ {
            None => final(status)@ is None && (r matches Err(e) && e@ == "No session is open."@),
            Some(m) => {
                let (res, m2) = edit_spec(m, id, text@);
                &&& final(status)@ == Some(m2)
                &&& match res {
                    Err(EditError::NoSuchItem) => r matches Err(e) && e@
                        == "that fragment is no longer in the session"@,
                    Err(EditError::NotText) => r matches Err(e) && e@
                        == "only text fragments can be edited"@,
                    Ok(false) => r matches Ok(Some(n)) && notice_is(
                        n,
                        "info"@,
                        "Emptied, so the fragment was removed"@,
                    ),
                    Ok(true) => r matches Ok(None),
                }
            },
        },
{
    let outcome = match status.session_mut() {
        Some(s) => s.edit_text(id, text),
        None => return Err("No session is open.".to_owned()),
    };
    match outcome {
        Ok(true) => Ok(None),
        Ok(false) => Ok(Some(Notice::info("Emptied, so the fragment was removed".to_owned()))),
        Err(e) => Err(e.message().to_owned()),
    }
}

/// Append a line the user typed rather than copied, stamped now. The
/// refusals are errors: nothing to add, a full session, or no session.
pub fn add_line(status: &mut SessionStatus, text: String) -> (r: Result<(), String>)
    requires
        old(status).wf(),
        old(status)@ matches Some(m) ==> m.next_id < u64::MAX,
    ensures
        final(status).wf(),
        match old(status)@ {
            None => final(status)@ is None && (r matches Err(e) && e@ == "No session is open."@),
            Some(m) => exists|at: u64|
                {
                    let (o, m2) = #[trigger] add_text_spec(m, text@, at);
                    &&& final(status)@ == Some(m2)
                    &&& match o {
                        OutcomeModel::Appended { .. } => r is Ok,
                        OutcomeModel::Blank => r matches Err(e) && e@ == "Nothing to add."@,
                        OutcomeModel::Full(limit) => r matches Err(e) && e@
                            == "The session is full at "@ + decimal(limit as nat) + " items."@,
                        _ => r matches Err(e) && e@ == "The line could not be added."@,
                    }
                },
        },
{
    let outcome = match status.session_mut() {
        Some(s) => s.add_text(text, now_ms()),
        None => return Err("No session is open.".to_owned()),
    };
    match outcome {
        CaptureOutcome::Appended { .. } => Ok(()),
        CaptureOutcome::Blank => Err("Nothing to add.".to_owned()),
        CaptureOutcome::Full { limit } => Err(numbered("The session is full at ", limit as u64, " items.")),
        _ => Err("The line could not be added.".to_owned()),
    }
}

/// The full text of one fragment of the live session, when it is text.
pub fn item_text(status: &SessionStatus, id: u64) -> (r: Option<String>)
    requires
        status.wf(),
    ensures
        match status@ {
            Some(m) if has_id(m.items, id) => match m.items[pos_of(m.items, id)].kind {
                KindModel::Text(t) => r matches Some(s) && s@ == t,
                _ => r is None,
            },
            _ => r is None,
        },
{
    let s = match status.session() {
        Some(s) => s,
        None => return None,
    };
    let items = s.items();
    let ghost m = s@;
    let mut i: usize = 0;
    while i < items.len()
        invariant
            i <= items@.len(),
            crate::session::item_models(items@) == m.items,
            status@ == Some(m),
            session_wf(m),
            forall|k: int| 0 <= k < i ==> (#[trigger] m.items[k]).id != id,
        decreases items.len() - i,
    {
        if items[i].id == id {
            proof {
                assert(m.items[i as int].id == id);
                crate::session::lemma_pos_of(m.items, id, i as int);
            }
            return match items[i].text() {
                Some(t) => Some(t.to_owned()),
                None => None,
            };
        }
        i = i + 1;
    }
    proof {
        if has_id(m.items, id) {
            let p = choose|p: int| 0 <= p < m.items.len() && (#[trigger] m.items[p]).id == id;
            assert(m.items[p].id != id);
        }
    }
    None
}

/// The longest wait before the paste keystroke, in milliseconds.
pub const MAX_PASTE_DELAY_MS: u64 = 5000;

/// A block ready for the clipboard, and how to paste it.
#[derive(Debug)]
pub struct Block {
    /// The plain text, which goes on the clipboard whatever else does.
    pub plain: String,
    /// The formatted version with images embedded, when one is wanted.
    pub rich: Option<String>,
    /// How many fragments the block holds.
    pub count: usize,
    /// Whether to send the paste keystroke.
    pub auto_paste: bool,
    /// How long to wait before sending it.
    pub delay_ms: u64,
}

/// The paste delay of the settings, capped.
pub open spec fn capped_delay(ms: u64) -> u64 {
    if ms > MAX_PASTE_DELAY_MS {
        MAX_PASTE_DELAY_MS
    } else {
        ms
    }
}

/// `b` is the block for these fragments under these settings: the plain
/// rendering, the formatted one exactly when the settings want formatting
/// and some fragment is an image, the count, and the paste timing.
pub open spec fn block_of(b: Block, items: Seq<ClipModel>, c: Config, clock: ClockModel) -> bool {
    &&& exists|w: WorldModel|
        observed(w, items, c.template@, clock) && b.plain@ == #[trigger] rendered(
            items,
            c.template@,
            w,
        )
    &&& if c.behavior.paste_format is Rich && has_image(items) {
        b.rich matches Some(h) && exists|w: WorldModel|
            observed(w, items, c.template@, clock) && h@ == #[trigger] rendered_html(
                items,
                c.template@,
                w,
            )
    } else {
        b.rich is None
    }
    &&& b.count == items.len()
    &&& b.auto_paste == c.behavior.auto_paste
    &&& b.delay_ms == capped_delay(c.behavior.paste_delay_ms)
}

/// Render a block of fragments under the settings.
fn make_block(items: &[&ClipItem], config: &Config, clock: &ClockReading) -> (b: Block)
    ensures
        block_of(b, models(items@), *config, clock@),
{
    let plain = render(items, &config.template, clock);
    let rich = if config.behavior.paste_format.is_rich() && carries_an_image(items) {
        Some(render_html(items, &config.template, clock))
    } else {
        None
    };
    let delay: u64 = if config.behavior.paste_delay_ms > MAX_PASTE_DELAY_MS {
        MAX_PASTE_DELAY_MS
    } else {
        config.behavior.paste_delay_ms
    };
    Block {
        plain,
        rich,
        count: items.len(),
        auto_paste: config.behavior.auto_paste,
        delay_ms: delay,
    }
}

/// What a flush of the live session does once its block is on the
/// clipboard.
#[derive(Debug)]
pub struct FlushJob {
    pub block: Block,
    /// The fragments to archive, empty when history is off.
    pub archive: Vec<ClipItem>,
    /// What the session was called.
    pub name: Option<String>,
    /// Leave the stack open for another paste.
    pub keep_open: bool,
    /// Put the earlier clipboard back after the paste.
    pub restore: bool,
}

/// `job` is the paste of session `m` under these settings: the block of its
/// ticked fragments, those fragments again for the history when history is
/// kept, its name, and whether to keep it open and restore the clipboard.
pub open spec fn planned_job(job: FlushJob, m: SessionModel, c: Config, clock: ClockModel) -> bool {
    &&& block_of(job.block, only_included(m.items), c, clock)
    &&& item_models(job.archive@) == (if c.behavior.keep_history {
        only_included(m.items)
    } else {
        seq![]
    })
    &&& opt_view(job.name) == m.name
    &&& job.keep_open == c.behavior.keep_open_after_flush
    &&& job.restore == c.behavior.restore_clipboard_after_flush
}

/// What the paste shortcut does.
#[derive(Debug)]
pub enum FlushPlan {
    /// No session, or one that has caught nothing: paste from the history.
    ReplayLast,
    /// Every fragment of the live session is unticked: say so rather than
    /// paste something else.
    Refused(String),
    /// Paste the live session.
    Paste(FlushJob),
}

/// Decide what the paste shortcut does with the session as it is.
///
/// With nothing collecting it falls back to the history. A live session
/// whose fragments are all unticked is refused, since quietly pasting a
/// different session would undo a choice just made. Otherwise the ticked
/// fragments are rendered, formatted too when they hold an image and the
/// settings allow it, and kept for the history when history is on.
pub fn plan_flush(status: &SessionStatus, config: &Config, clock: &ClockReading) -> (r: FlushPlan)
    ensures
        match status@ {
            None => r is ReplayLast,
            Some(m) => if m.items.len() == 0 {
                r is ReplayLast
            } else if only_included(m.items).len() == 0 {
                r matches FlushPlan::Refused(e) && e@
                    == "Every fragment is unticked, so there is nothing to paste."@
            } else {
                r matches FlushPlan::Paste(job) && planned_job(job, m, *config, clock@)
            },
        },
{
    let current = match status.session() {
        Some(s) => s,
        None => return FlushPlan::ReplayLast,
    };
    if current.is_empty() {
        return FlushPlan::ReplayLast;
    }
    if current.included_count() == 0 {
        return FlushPlan::Refused(
            "Every fragment is unticked, so there is nothing to paste.".to_owned(),
        );
    }
    let included = current.included();
    let block = make_block(included.as_slice(), config, clock);
    let mut archive: Vec<ClipItem> = Vec::new();
    if config.behavior.keep_history {
        let ghost ms = models(included@);
        let mut i: usize = 0;
        while i < included.len()
            invariant
                i <= included@.len(),
                ms == models(included@),
                item_models(archive@) == ms.take(i as int),
            decreases included.len() - i,
        {
            let ghost prev = archive@;
            archive.push(included[i].duplicate());
            proof {
                assert(item_models(archive@) =~= item_models(prev).push(ms[i as int]));
                assert(ms.take(i + 1) =~= ms.take(i as int).push(ms[i as int]));
            }
            i = i + 1;
        }
        proof {
            assert(ms.take(ms.len() as int) =~= ms);
        }
    } else {
        proof {
            assert(item_models(archive@) =~= Seq::<ClipModel>::empty());
        }
    }
    let name = match current.name() {
        Some(n) => Some(n.to_owned()),
        None => None,
    };
    FlushPlan::Paste(
        FlushJob {
            block,
            archive,
            name,
            keep_open: config.behavior.keep_open_after_flush,
            restore: config.behavior.restore_clipboard_after_flush,
        },
    )
}

/// After the block is on the clipboard: close the session unless the
/// settings keep it open for another paste.
pub fn close_after_flush(status: &mut SessionStatus, keep_open: bool)
    requires
        old(status).wf(),
    ensures
        final(status).wf(),
        keep_open ==> final(status)@ == old(status)@,
        !keep_open ==> final(status)@ is None,
{
    if !keep_open {
        status.cancel();
    }
}

/// The history after a flush archives the ticked fragments of `m` under the
/// limit of the settings, stamped at some moment `at`.
pub open spec fn flushed_history(h: HistoryModel, m: SessionModel, c: Config, at: u64) -> HistoryModel {
    let limit = at_least_one(c.behavior.history_limit);
    archived(
        HistoryModel { entries: trimmed(h.entries, limit), limit, ..h },
        new_entry(h.next_id, at, m.name, only_included(m.items)),
    )
}

/// Carry out a planned paste of the live session once the block's write to
/// the clipboard has been tried.
///
/// A write that failed changes nothing. After a write that succeeded the
/// block holds the ticked fragments and their count, the history gains
/// those fragments exactly when history is kept, and the session stays open
/// exactly when the settings keep it open. The block is handed back for the
/// paste keystroke.
pub fn finish_flush(
    status: &mut SessionStatus,
    history: &mut History,
    config: &Config,
    clock: &ClockReading,
    job: FlushJob,
    written: bool,
) -> (r: (Option<usize>, Block))
    requires
        old(status).wf(),
        old(history)@.next_id < u64::MAX,
        old(status)@ matches Some(m) && only_included(m.items).len() > 0 && planned_job(
            job,
            m,
            *config,
            clock@,
        ),
    ensures
        final(status).wf(),
        r.1 == job.block,
        !written ==> r.0 is None && final(status)@ == old(status)@ && final(history)@ == old(
            history,
        )@,
        written ==> match old(status)@ {
            Some(m) => {
                &&& r.0 matches Some(n) && n == only_included(m.items).len()
                &&& block_of(r.1, only_included(m.items), *config, clock@)
                &&& config.behavior.keep_history ==> exists|at: u64|
                    final(history)@ == #[trigger] flushed_history(old(history)@, m, *config, at)
                &&& !config.behavior.keep_history ==> final(history)@ == old(history)@
                &&& config.behavior.keep_open_after_flush ==> final(status)@ == old(status)@
                &&& !config.behavior.keep_open_after_flush ==> final(status)@ is None
            },
            None => false,
        },
{
    let ghost m = match status@ {
        Some(m) => m,
        None => arbitrary(),
    };
    let FlushJob { block, archive, name, keep_open, restore: _ } = job;
    if !written {
        return (None, block);
    }
    let count = block.count;
    let ghost h0 = history@;
    let ghost items = item_models(archive@);
    let archived_id = archive_session(history, config.behavior.history_limit, archive, name);
    proof {
        if config.behavior.keep_history {
            let at = choose|at: u64|
                history@ == #[trigger] archived(
                    HistoryModel {
                        entries: trimmed(h0.entries, at_least_one(config.behavior.history_limit)),
                        limit: at_least_one(config.behavior.history_limit),
                        ..h0
                    },
                    new_entry(h0.next_id, at, m.name, items),
                );
            assert(history@ == flushed_history(h0, m, *config, at));
        }
    }
    close_after_flush(status, keep_open);
    (Some(count), block)
}

/// How long to wait before the paste keystroke: the delay, and never no
/// wait at all.
pub fn paste_wait_ms(delay_ms: u64) -> (r: u64)
    ensures
        r == if delay_ms == 0 {
            1
        } else {
            delay_ms
        },
{
    if delay_ms == 0 {
        1
    } else {
        delay_ms
    }
}

/// How long to wait after the paste before putting the earlier clipboard
/// back: three times the delay, and at least 240 ms, since the receiving
/// application reads the clipboard asynchronously.
pub fn restore_wait_ms(delay_ms: u64) -> (r: u64)
    requires
        delay_ms * 3 <= u64::MAX,
    ensures
        r == if delay_ms * 3 < 240 {
            240
        } else {
            delay_ms * 3
        },
{
    let d: u64 = delay_ms * 3;
    if d < 240 {
        240
    } else {
        d
    }
}

/// Decide what pasting these archived sessions does: refused when nothing
/// is ticked or none of the ticked sessions is left, otherwise their
/// fragments as one block, oldest session first.
pub fn plan_replay(history: &History, ids: &[u64], config: &Config, clock: &ClockReading) -> (r:
    Result<Block, String>)
    ensures
        ids@.len() == 0 ==> (r matches Err(e) && e@ == "Nothing is ticked."@),
        ids@.len() > 0 && combined_items(history@.entries, ids@).len() == 0 ==> (r matches Err(e)
            && e@ == "Those sessions are no longer in the history."@),
        ids@.len() > 0 && combined_items(history@.entries, ids@).len() > 0 ==> (r matches Ok(b)
            && block_of(b, combined_items(history@.entries, ids@), *config, clock@)),
{
    if ids.len() == 0 {
        return Err("Nothing is ticked.".to_owned());
    }
    let items = history.combined(ids);
    if items.len() == 0 {
        return Err("Those sessions are no longer in the history.".to_owned());
    }
    Ok(make_block(items.as_slice(), config, clock))
}

/// The name of the first entry with this id.
pub open spec fn entry_name(m: HistoryModel, id: u64) -> Option<Seq<char>> {
    match first_entry(m.entries, id) {
        Some(p) => m.entries[p].name,
        None => None,
    }
}

/// What a paste from the history says it did.
pub open spec fn replay_label(m: HistoryModel, ids: Seq<u64>, was_ticked: bool) -> Seq<char> {
    if ids.len() == 1 {
        match entry_name(m, ids[0]) {
            Some(name) => if was_ticked {
                "Pasted \""@ + name + "\""@
            } else {
                "Pasted \""@ + name + "\" again"@
            },
            None => if was_ticked {
                "Pasted the ticked session"@
            } else {
                "Pasted the last session again"@
            },
        }
    } else {
        "Pasted "@ + decimal(ids.len()) + " ticked sessions"@
    }
}

/// Decide which archived sessions the paste shortcut pastes when nothing is
/// collecting, and how to say so: the ticked ones that still exist, or the
/// newest. With an empty history there is nothing to paste.
pub fn plan_replay_last(history: &History, ticked: &[u64]) -> (r: Result<(Vec<u64>, String), String>)
    ensures
        replay_spec(history@, ticked@).len() == 0 ==> (r matches Err(e) && e@
            == "Nothing has been captured yet, and there is no earlier session to repeat."@),
        replay_spec(history@, ticked@).len() > 0 ==> (r matches Ok((ids, label)) && ids@
            == replay_spec(history@, ticked@) && label@ == replay_label(
            history@,
            ids@,
            selected_ids(history@.entries, ticked@).len() > 0,
        )),
{
    let ids = replay_target(history, ticked);
    let was_ticked = history.retain_existing(ticked).len() > 0;
    if ids.len() == 0 {
        return Err(
            "Nothing has been captured yet, and there is no earlier session to repeat.".to_owned(),
        );
    }
    let label = if ids.len() == 1 {
        let name = match history.get(ids[0]) {
            Some(e) => match &e.name {
                Some(n) => Some(n.clone()),
                None => None,
            },
            None => None,
        };
        match name {
            Some(n) => if was_ticked {
                around("Pasted \"", n.as_str(), "\"")
            } else {
                around("Pasted \"", n.as_str(), "\" again")
            },
            None => if was_ticked {
                "Pasted the ticked session".to_owned()
            } else {
                "Pasted the last session again".to_owned()
            },
        }
    } else {
        numbered("Pasted ", ids.len() as u64, " ticked sessions")
    };
    Ok((ids, label))
}

/// What a paste from the history reports: its label and how many fragments
/// went in.
pub fn replay_notice(label: &str, count: usize) -> (n: Notice)
    ensures
        notice_is(n, "info"@, label@ + " ("@ + decimal(count as nat) + ")"@),
{
    let mut t = label.to_owned();
    t.append(" (");
    let d = decimal_string(count as u64);
    t.append(d.as_str());
    t.append(")");
    Notice::info(t)
}

/// Keep a finished session so it can be pasted again, under the history
/// limit of the settings. Nothing is kept of an empty session, and then the
/// archive is left as it was.
pub fn archive_session(
    history: &mut History,
    limit: usize,
    items: Vec<ClipItem>,
    name: Option<String>,
) -> (r: Option<u64>)
    requires
        old(history)@.next_id < u64::MAX,
    ensures
        items@.len() == 0 ==> r is None && final(history)@ == old(history)@,
        items@.len() > 0 ==> {
            let m = old(history)@;
            let kept = HistoryModel {
                entries: trimmed(m.entries, at_least_one(limit)),
                limit: at_least_one(limit),
                ..m
            };
            &&& r == Some(m.next_id)
            &&& exists|at: u64|
                final(history)@ == archived(
                    kept,
                    #[trigger] new_entry(m.next_id, at, opt_view(name), item_models(items@)),
                )
        },
{
    if items.len() == 0 {
        return None;
    }
    history.set_limit(limit);
    record_now(history, items, name)
}

/// `ids` removed from a selection, the rest kept in order.
pub open spec fn unlisted(selection: Seq<u64>, ids: Seq<u64>) -> Seq<u64>
    decreases selection.len(),
{
    if selection.len() == 0 {
        seq![]
    } else {
        unlisted(selection.drop_last(), ids) + if ids.contains(selection.last()) {
            seq![]
        } else {
            seq![selection.last()]
        }
    }
}

/// The archive with the entries of every id in `ids` removed, one id after
/// the other.
pub open spec fn without_all(es: Seq<crate::history::EntryModel>, ids: Seq<u64>) -> Seq<
    crate::history::EntryModel,
>
    decreases ids.len(),
{
    if ids.len() == 0 {
        es
    } else {
        without_entry(without_all(es, ids.drop_last()), ids.last())
    }
}

/// Once sessions are forgotten none of them is left, and every other
/// session is still there.
pub proof fn law_forgotten_sessions_are_gone(
    es: Seq<crate::history::EntryModel>,
    ids: Seq<u64>,
    x: u64,
)
    ensures
        ids.contains(x) ==> !has_entry(without_all(es, ids), x),
        !ids.contains(x) ==> has_entry(without_all(es, ids), x) == has_entry(es, x),
    decreases ids.len(),
{
    if ids.len() > 0 {
        let init = ids.drop_last();
        law_forgotten_sessions_are_gone(es, init, x);
        let w = without_all(es, init);
        let other: u64 = if x == 0 { 1 } else { 0 };
        if x == ids.last() {
            law_removed_entry_is_gone(w, x, other);
        } else {
            law_removed_entry_is_gone(w, ids.last(), x);
            if init.contains(x) {
                let i = choose|i: int| 0 <= i < init.len() && init[i] == x;
                assert(ids[i] == x);
            }
            if ids.contains(x) {
                let i = choose|i: int| 0 <= i < ids.len() && ids[i] == x;
                assert(i < init.len());
                assert(init[i] == x);
            }
        }
    }
}

/// Delete archived sessions. A deleted session cannot stay ticked, so the
/// ids leave the selection too.
pub fn forget(history: &mut History, selection: &mut Vec<u64>, ids: &[u64])
    ensures
        final(history)@ == (HistoryModel {
            entries: without_all(old(history)@.entries, ids@),
            ..old(history)@
        }),
        final(selection)@ == unlisted(old(selection)@, ids@),
{
    let ghost m = history@;
    let mut i: usize = 0;
    while i < ids.len()
        invariant
            i <= ids@.len(),
            history@ == (HistoryModel { entries: without_all(m.entries, ids@.take(i as int)), ..m }),
        decreases ids.len() - i,
    {
        history.remove(ids[i]);
        proof {
            let t = ids@.take(i + 1);
            assert(t.drop_last() =~= ids@.take(i as int));
            assert(history@ =~= (HistoryModel { entries: without_all(m.entries, t), ..m }));
        }
        i = i + 1;
    }
    proof {
        assert(ids@.take(ids@.len() as int) =~= ids@);
    }
    let ghost sel = selection@;
    let mut kept: Vec<u64> = Vec::new();
    let mut j: usize = 0;
    while j < selection.len()
        invariant
            j <= selection@.len(),
            selection@ == sel,
            kept@ == unlisted(sel.take(j as int), ids@),
        decreases selection.len() - j,
    {
        let x = selection[j];
        let listed = crate::history::contains_id(ids, x);
        if !listed {
            kept.push(x);
        }
        proof {
            let t = sel.take(j + 1);
            assert(t.drop_last() =~= sel.take(j as int));
            assert(kept@ =~= unlisted(t, ids@));
        }
        j = j + 1;
    }
    proof {
        assert(sel.take(sel.len() as int) =~= sel);
    }
    *selection = kept;
}

/// Forget every archived session and every tick.
pub fn clear_history(history: &mut History, selection: &mut Vec<u64>) -> (n: Notice)
    ensures
        final(history)@ == (HistoryModel { entries: seq![], ..old(history)@ }),
        final(selection)@.len() == 0,
        notice_is(n, "info"@, "History cleared"@),
{
    history.clear();
    selection.clear();
    Notice::info("History cleared".to_owned())
}

/// The fragments the settings preview renders when nothing has been
/// captured, stamped `at`.
pub open spec fn sample_models(at: u64) -> Seq<ClipModel> {
    seq![
        ClipModel {
            id: 1,
            kind: KindModel::Text("first fragment"@),
            captured_at_ms: at,
            source: Some("Editor"@),
            included: true,
            edited: false,
        },
        ClipModel {
            id: 2,
            kind: KindModel::Text("second fragment"@),
            captured_at_ms: at,
            source: Some("Browser"@),
            included: true,
            edited: false,
        },
        ClipModel {
            id: 3,
            kind: KindModel::Text("third fragment"@),
            captured_at_ms: at,
            source: Some("Terminal"@),
            included: true,
            edited: false,
        },
    ]
}

fn sample(id: u64, text: &str, at: u64, source: &str) -> (r: ClipItem)
    ensures
        r@ == (ClipModel {
            id,
            kind: KindModel::Text(text@),
            captured_at_ms: at,
            source: Some(source@),
            included: true,
            edited: false,
        }),
{
    ClipItem::new(id, ClipKind::text(text), at, Some(source.to_owned()))
}

/// Three sample fragments, stamped now.
pub fn sample_items() -> (r: Vec<ClipItem>)
    ensures
        exists|at: u64| item_models(r@) == #[trigger] sample_models(at),
{
    let now = now_ms();
    let mut r: Vec<ClipItem> = Vec::new();
    r.push(sample(1, "first fragment", now, "Editor"));
    r.push(sample(2, "second fragment", now, "Browser"));
    r.push(sample(3, "third fragment", now, "Terminal"));
    proof {
        assert(item_models(r@) =~= sample_models(now));
    }
    r
}

/// What the settings preview shows for a template: the live session when
/// it holds anything, since seeing your own fragments beats seeing samples,
/// and the samples otherwise.
pub fn preview_block(status: &SessionStatus, template: &Template, clock: &ClockReading) -> (r:
    String)
    ensures
        match status@ {
            Some(m) if m.items.len() > 0 => exists|w: WorldModel|
                observed(w, only_included(m.items), template@, clock@) && r@ == #[trigger] rendered(
                    only_included(m.items),
                    template@,
                    w,
                ),
            _ => exists|at: u64, w: WorldModel|
                observed(w, sample_models(at), template@, clock@) && r@ == #[trigger] rendered(
                    sample_models(at),
                    template@,
                    w,
                ),
        },
{
    match status.session() {
        Some(s) => {
            if !s.is_empty() {
                return s.render(template, clock);
            }
        },
        None => {},
    }
    let items = sample_items();
    let ghost at = choose|at: u64| item_models(items@) == sample_models(at);
    let mut refs: Vec<&ClipItem> = Vec::new();
    let mut i: usize = 0;
    while i < items.len()
        invariant
            i <= items@.len(),
            models(refs@) == item_models(items@).take(i as int),
        decreases items.len() - i,
    {
        let ghost prev = refs@;
        refs.push(&items[i]);
        proof {
            assert(models(refs@) =~= models(prev).push(items@[i as int]@));
            assert(item_models(items@).take(i + 1) =~= item_models(items@).take(i as int).push(
                items@[i as int]@,
            ));
        }
        i = i + 1;
    }
    proof {
        assert(item_models(items@).take(items@.len() as int) =~= item_models(items@));
    }
    render(refs.as_slice(), template, clock)
}

} // verus!
