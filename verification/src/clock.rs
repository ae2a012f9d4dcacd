//! Reading the clock and writing instants as local times.
//!
//! The current time and the machine's time zone are read by the shell and
//! handed in as a `ClockReading` of plain values; only the count of
//! milliseconds since the epoch is read here. Writing a given instant at a
//! given offset from UTC with a given pattern is a function of those three
//! alone, and is named.

use std::fmt::Write;
use std::time::UNIX_EPOCH;

use chrono::{FixedOffset, TimeZone};
use vstd::prelude::*;

use crate::item::opt_view;

verus! {

/// The text chrono writes for an instant seen at `offset` seconds east of
/// UTC, with a strftime pattern; `None` when the offset or the instant is out
/// of chrono's range or the pattern cannot be rendered.
pub uninterp spec fn zoned_text_of(secs: i64, nanos: u32, offset: i32, pattern: Seq<char>) -> Option<
    Seq<char>,
>;

/// An instant together with the local offset from UTC at it.
#[derive(Clone, Copy, Debug, PartialEq, Eq)]
pub struct ZonedInstant {
    /// Seconds since the unix epoch.
    pub secs: i64,
    /// Nanoseconds past `secs`.
    pub nanos: u32,
    /// Seconds east of UTC.
    pub offset: i32,
}

/// What the clock and the local time zone said, as plain values: the
/// current instant with the local offset at it, and the local offset at
/// capture times, each as milliseconds since the epoch and seconds east of
/// UTC. A capture time that is not listed is one the zone could not place.
#[derive(Clone, Debug)]
pub struct ClockReading {
    pub now: ZonedInstant,
    pub offsets: Vec<(u64, i32)>,
}

/// A clock reading, as values.
#[verifier::ext_equal]
pub struct ClockModel {
    pub now: ZonedInstant,
    pub offsets: Seq<(u64, i32)>,
}

impl View for ClockReading {
    type V = ClockModel;

    open spec fn view(&self) -> ClockModel {
        ClockModel { now: self.now, offsets: self.offsets@ }
    }
}

/// The offset listed first for this capture time, if any.
pub open spec fn offset_for(offsets: Seq<(u64, i32)>, ms: u64) -> Option<i32>
    decreases offsets.len(),
{
    if offsets.len() == 0 {
        None
    } else if offsets[0].0 == ms {
        Some(offsets[0].1)
    } else {
        offset_for(offsets.drop_first(), ms)
    }
}

/// The offset a reading gives for a capture time.
pub fn find_offset(clock: &ClockReading, ms: u64) -> (r: Option<i32>)
    ensures
        r == offset_for(clock@.offsets, ms),
{
    let mut i: usize = 0;
    proof {
        assert(clock@.offsets.skip(0) =~= clock@.offsets);
    }
    while i < clock.offsets.len()
        invariant
            i <= clock.offsets@.len(),
            offset_for(clock@.offsets, ms) == offset_for(clock@.offsets.skip(i as int), ms),
        decreases clock.offsets.len() - i,
    {
        let (t, o) = clock.offsets[i];
        proof {
            let rest = clock@.offsets.skip(i as int);
            assert(rest[0] == clock.offsets@[i as int]);
            assert(rest.drop_first() =~= clock@.offsets.skip(i + 1));
        }
        if t == ms {
            return Some(o);
        }
        i = i + 1;
    }
    None
}

/// Milliseconds since the unix epoch according to the system clock, or
/// `None` when the clock reads a time before the epoch.
///
/// Calls `SystemTime::elapsed` on `UNIX_EPOCH`, the time from the epoch to
/// now. Nothing is stated of the value: it is the time.
#[verifier::external_body]
fn system_millis() -> Option<u128> {
    UNIX_EPOCH.elapsed().ok().map(|d| d.as_millis())
}

/// Milliseconds since the unix epoch, or zero when the clock reads a time
/// before the epoch.
pub fn now_ms() -> u64 {
    match system_millis() {
        Some(ms) => ms as u64,
        None => 0,
    }
}

/// An instant written with a strftime pattern at a fixed offset from UTC.
///
/// Calls `chrono::FixedOffset::east_opt`, `TimeZone::timestamp_opt(..)
/// .single()` and `DateTime::format`, writing into a new string. The result
/// is named by `zoned_text_of`; a fixed offset reads no time zone data, so
/// the same arguments give the same text.
#[verifier::external_body]
pub(crate) fn zoned_text(secs: i64, nanos: u32, offset: i32, pattern: &str) -> (r: Option<String>)
    ensures
        opt_view(r) == zoned_text_of(secs, nanos, offset, pattern@),
{
    let at = FixedOffset::east_opt(offset)?.timestamp_opt(secs, nanos).single()?;
    let mut out = String::new();
    write!(out, "{}", at.format(pattern)).ok()?;
    Some(out)
}

} // verus!
