//! The interval and special-day records the engine stores.

use vstd::prelude::*;
use crate::time::{Timestamp, valid_day, valid_ts, MAX_TIMESTAMP};

verus! {

/// One contiguous span of accounted work time: a start and an end
/// timestamp with a free-text comment. Invariant (kept by the store):
/// `start <= end`, both within the accepted timestamp range.
#[derive(Debug, PartialEq, Eq, Clone)]
pub struct WorktimeEntry {
    pub start: Timestamp,
    pub end: Timestamp,
    pub comments: String,
}

/// Why a calendar day is flagged as special.
#[derive(Debug, PartialEq, Eq, Structural, Clone, Copy)]
pub enum SpecialDayType {
    Vacation,
    Sick,
    Leave,
    Holiday,
}

/// A calendar day flagged as non-working, held as a civil day number.
#[derive(Debug, PartialEq, Eq, Structural, Clone, Copy)]
pub struct SpecialDayEntry {
    pub day: i64,
    pub day_type: SpecialDayType,
}

/// A work interval the engine accepts: ordered endpoints, both in range.
pub open spec fn entry_valid(e: WorktimeEntry) -> bool {
    &&& valid_ts(e.start as int)
    &&& valid_ts(e.end as int)
    &&& e.start <= e.end
}

/// The order of the store: by start, then by end.
pub open spec fn entry_key_le(a: WorktimeEntry, b: WorktimeEntry) -> bool {
    a.start < b.start || (a.start == b.start && a.end <= b.end)
}

/// A special day the engine accepts.
pub open spec fn special_valid(e: SpecialDayEntry) -> bool {
    valid_day(e.day as int)
}

impl WorktimeEntry {
    /// The elapsed time of the interval, in seconds.
    pub fn duration(&self) -> (d: i64)
        requires
            entry_valid(*self),
        ensures
            d == self.end - self.start,
            0 <= d <= 2 * MAX_TIMESTAMP,
    {
        self.end - self.start
    }

    /// A field-for-field copy of the entry.
    pub fn duplicate(&self) -> (r: WorktimeEntry)
        ensures
            r == *self,
    {
        WorktimeEntry { start: self.start, end: self.end, comments: self.comments.clone() }
    }
}

} // verus!
