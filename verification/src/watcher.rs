//! How the clipboard watcher decides what counts as a fresh copy.
//!
//! One thread owns the clipboard. Each tick it may skip the read when the
//! platform's change counter has not moved, and it captures a value only
//! when it differs from the last one it saw or wrote itself, which is what
//! stops a flushed block from being captured back into the next session.

use vstd::prelude::*;

use crate::item::{digest_of, ClipKind, KindModel};

verus! {

/// How long to wait between reads when no session is open.
pub const IDLE_POLL_MS: u64 = 500;

/// The shortest poll period the watcher accepts.
pub const MIN_POLL_MS: u64 = 30;

/// The longest poll period the watcher accepts.
pub const MAX_POLL_MS: u64 = 5000;

/// Which kinds of content the open session is willing to accept. Reading a
/// kind nobody wants is wasted work, and for images a lot of it.
#[derive(Clone, Copy, Debug)]
pub struct Wanted {
    pub images: bool,
    pub files: bool,
}

impl Wanted {
    /// For an explicit read, which should see whatever is there.
    pub fn everything() -> (w: Self)
        ensures
            w.images && w.files,
    {
        Wanted { images: true, files: true }
    }
}

/// The configured poll period, kept between the bounds.
pub open spec fn clamped_poll(ms: u64) -> u64 {
    if ms < MIN_POLL_MS {
        MIN_POLL_MS
    } else if ms > MAX_POLL_MS {
        MAX_POLL_MS
    } else {
        ms
    }
}

/// The poll period the watcher uses for a configured one.
pub fn watch_interval_ms(configured: u64) -> (r: u64)
    ensures
        r == clamped_poll(configured),
{
    if configured < MIN_POLL_MS {
        MIN_POLL_MS
    } else if configured > MAX_POLL_MS {
        MAX_POLL_MS
    } else {
        configured
    }
}

/// How long the next wait is: the session's period while one is open, the
/// idle period otherwise.
pub fn poll_wait_ms(active: bool, interval_ms: u64) -> (r: u64)
    ensures
        r == if active {
            interval_ms
        } else {
            IDLE_POLL_MS
        },
{
    if active {
        interval_ms
    } else {
        IDLE_POLL_MS
    }
}

/// One place a clipboard value can be read from, in the order they are
/// tried.
#[derive(Clone, Copy, Debug, PartialEq, Eq)]
pub enum ReadStep {
    Files,
    Text,
    Image,
}

/// Which read comes after `done`: files first when they are wanted (a file
/// copy also puts bare names on the clipboard as text, which is less than
/// the paths), then text, which is what a session almost always collects,
/// then an image when images are wanted.
pub fn next_read(want: Wanted, done: Option<ReadStep>) -> (r: Option<ReadStep>)
    ensures
        r == match done {
            None => if want.files {
                Some(ReadStep::Files)
            } else {
                Some(ReadStep::Text)
            },
            Some(ReadStep::Files) => Some(ReadStep::Text),
            Some(ReadStep::Text) => if want.images {
                Some(ReadStep::Image)
            } else {
                None
            },
            Some(ReadStep::Image) => None,
        },
{
    match done {
        None => if want.files {
            Some(ReadStep::Files)
        } else {
            Some(ReadStep::Text)
        },
        Some(ReadStep::Files) => Some(ReadStep::Text),
        Some(ReadStep::Text) => if want.images {
            Some(ReadStep::Image)
        } else {
            None
        },
        Some(ReadStep::Image) => None,
    }
}

/// What the watcher remembers: the hash of the last value it saw or wrote,
/// and the platform's change counter when it last looked.
#[derive(Clone, Copy, Debug, PartialEq, Eq)]
pub struct Watcher {
    pub last_digest: Option<u64>,
    pub last_generation: Option<u64>,
}

/// A tick: whether the clipboard may have changed, and the memory after.
/// Without a change counter every tick is worth a read.
pub open spec fn tick_spec(w: Watcher, generation: Option<u64>) -> (bool, Watcher) {
    match generation {
        Some(g) => if w.last_generation == Some(g) {
            (false, w)
        } else {
            (true, Watcher { last_generation: Some(g), ..w })
        },
        None => (true, w),
    }
}

/// A value read on a tick: whether it is a fresh copy, and the memory after.
pub open spec fn seen_spec(w: Watcher, k: KindModel) -> (bool, Watcher) {
    if w.last_digest == Some(digest_of(k)) {
        (false, w)
    } else {
        (true, Watcher { last_digest: Some(digest_of(k)), ..w })
    }
}

/// The memory after the watcher's own write of `k` succeeded.
pub open spec fn written_spec(k: KindModel, generation: Option<u64>) -> Watcher {
    Watcher { last_digest: Some(digest_of(k)), last_generation: generation }
}

impl Watcher {
    /// A watcher that has seen nothing, with the counter as it is now.
    pub fn new(generation: Option<u64>) -> (w: Self)
        ensures
            w.last_digest is None,
            w.last_generation == generation,
    {
        Watcher { last_digest: None, last_generation: generation }
    }

    /// Whether this tick is worth a read.
    pub fn tick(&mut self, generation: Option<u64>) -> (r: bool)
        ensures
            (r, *final(self)) == tick_spec(*old(self), generation),
    {
        match generation {
            Some(g) => {
                if self.last_generation == Some(g) {
                    return false;
                }
                self.last_generation = Some(g);
                true
            },
            None => true,
        }
    }

    /// Whether a value just read is a fresh copy to capture.
    pub fn seen(&mut self, kind: &ClipKind) -> (r: bool)
        ensures
            (r, *final(self)) == seen_spec(*old(self), kind@),
    {
        let d = kind.digest();
        if self.last_digest == Some(d) {
            return false;
        }
        self.last_digest = Some(d);
        true
    }

    /// The watcher's own write of `kind` succeeded: it must never come back
    /// as a capture.
    pub fn wrote(&mut self, kind: &ClipKind, generation: Option<u64>)
        ensures
            *final(self) == written_spec(kind@, generation),
    {
        self.last_digest = Some(kind.digest());
        self.last_generation = generation;
    }

    /// Take what is on the clipboard now as already seen, so it is not
    /// mistaken for a fresh copy.
    pub fn rebase(&mut self, current: Option<&ClipKind>, generation: Option<u64>)
        ensures
            final(self).last_digest == match current {
                Some(k) => Some(digest_of(k@)),
                None => None,
            },
            final(self).last_generation == generation,
    {
        self.last_digest = match current {
            Some(k) => Some(k.digest()),
            None => None,
        };
        self.last_generation = generation;
    }
}

/// What the watcher writes itself never comes back as a capture: reading
/// the same content after its own write is not a fresh copy, whatever the
/// change counter did in between.
pub proof fn law_own_write_is_not_captured(
    k: KindModel,
    written_generation: Option<u64>,
    tick_generation: Option<u64>,
    read: KindModel,
)
    requires
        digest_of(read) == digest_of(k),
    ensures
        !seen_spec(tick_spec(written_spec(k, written_generation), tick_generation).1, read).0,
{
}

/// A fresh copy is captured once: reading the same content again on a
/// later tick is not another copy.
pub proof fn law_a_copy_is_captured_once(w: Watcher, k: KindModel, generation: Option<u64>)
    ensures
        !seen_spec(tick_spec(seen_spec(w, k).1, generation).1, k).0,
{
}

} // verus!
