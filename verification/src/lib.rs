//! A work-time accounting engine.
//!
//! The engine observes a stream of timestamped activity events, segments
//! them into contiguous work intervals separated by idle gaps, stores the
//! intervals in an ordered in-memory database, and answers range queries
//! and an overtime figure relative to a weekly target.
//!
//! All times are local civil times at one-second resolution: a timestamp
//! counts the seconds from the local midnight that opened 1970-01-01, with
//! every civil day exactly 86400 seconds long. Conversions between civil
//! timestamps and real wall-clock instants (time zones, daylight saving)
//! are the host program's concern.

pub mod interval;
pub mod load;
pub mod overtime;
pub mod recorder;
pub mod store;
pub mod time;
