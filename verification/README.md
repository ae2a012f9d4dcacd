# incredibulk_core

The model behind Incredibulk, the accumulating clipboard, written in Verus.
Its functions carry contracts that Verus proves. The current time and the
local time zone are read by the shell and handed in as a `ClockReading`;
path syntax, time formatting, image encoding and case folding enter through a
few trusted calls whose contracts say only what their sources show.

A session turns the clipboard into an append-only stack with an explicit
begin and commit. Open one, copy as much as you like, then paste everything as
one block rendered from a template. Finished sessions are archived and can be
pasted again, several at once, oldest first.

## Layout

| Path | What is in it |
| --- | --- |
| `src/session.rs` | The live session: capture rules, ticking, editing, reordering, the snapshot for the stack window. |
| `src/history.rs` | Archived sessions: the cap, replay selection, search, the rows of the history list. |
| `src/template.rs`, `src/html.rs`, `src/expand.rs` | Rendering a block as plain text or as HTML, and the token engine under both. |
| `src/config.rs` | Settings, their defaults, and the warnings about them. |
| `src/actions.rs` | What each operation of the app does: flushing, replaying, archiving, and what the user is told. |
| `src/watcher.rs` | How the clipboard watcher tells a fresh copy from one it has already seen or written. |
| `src/desktop.rs` | Window titles, the tray, the stack window's corner, shortcuts, updates, removal. |
| `src/item.rs`, `src/b64.rs`, `src/text.rs` | Captures, base64, and the character-level helpers. |
| `src/clock.rs`, `src/paths.rs` | Clock readings, writing an instant with a pattern, and path splitting. |
| `app/` | The desktop shell: clipboard thread, shortcuts, tray, windows, files, updater, clock and time zone. |
| `tests/` | Scenarios on concrete values. |

The laws the model keeps (a substituted value is never scanned again, ids are
never reused, the history never exceeds its limit, a paste with nothing live
replays the ticked sessions or else the newest, the watcher never recaptures
its own write, base64 decoding undoes encoding, and others) are stated as
public proof functions beside the code they are about.
