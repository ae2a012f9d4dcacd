//! Core model for incredibulk, the accumulating clipboard.
//!
//! A session turns the clipboard into an append-only stack with an explicit
//! begin and commit: open a session, copy as many fragments as you like, then
//! flush them as one rendered block.

pub mod actions;
pub mod b64;
pub mod clock;
pub mod config;
pub mod expand;
pub mod history;
pub mod imaging;
pub mod html;
pub mod item;
pub mod paths;
pub mod session;
pub mod template;
pub mod text;
pub mod watcher;
pub mod desktop;

pub use clock::{now_ms, ClockReading, ZonedInstant};
pub use config::{Behavior, CapturePolicy, Config, Hotkeys, HudCorner, PasteFormat, Warning};
pub use history::{replay_target, History, HistoryEntry, HistoryView};
pub use html::render_html;
pub use item::{ClipItem, ClipKind, ImagePayload};
pub use session::{
    CaptureOutcome, ItemView, MoveDirection, Session, SessionSnapshot, SessionStatus,
};
pub use template::{presets, render, Preset, Template};
