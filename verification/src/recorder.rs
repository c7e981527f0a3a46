//! The segmentation state machine: turns a stream of timestamped
//! activity events into work intervals, using idle gaps as boundaries,
//! and commits finished intervals into the store.

use vstd::prelude::*;
use vstd::string::StringExecFns;
use crate::interval::WorktimeEntry;
use crate::store::{commit_spec, Database};
use crate::time::{valid_ts, Timestamp};

verus! {

/// An event fed to the segmentation state machine.
pub enum EventType {
    /// Input-device activity observed at the given time.
    Activity(Timestamp),
    /// Free text to attach to the interval currently being built.
    Comment(String),
    /// Commit the interval currently being built, keeping it open so a
    /// later commit with the same start can extend it.
    Commit,
}

/// The segmentation state machine. It accumulates one open interval,
/// from `last_start_time` to `last_event_time`, with a comment buffer;
/// an activity event after an idle gap longer than the timeout closes
/// the open interval and starts the next one.
pub struct ActivityRecorder {
    pub last_event_time: Timestamp,
    pub last_start_time: Timestamp,
    pub comments: String,
    pub timeouts_minutes: u64,
}

impl ActivityRecorder {
    /// The machine's invariant: the open interval is a valid one, and
    /// the idle timeout is small enough for the gap arithmetic.
    pub open spec fn wf(self) -> bool {
        &&& valid_ts(self.last_start_time as int)
        &&& valid_ts(self.last_event_time as int)
        &&& self.last_start_time <= self.last_event_time
        &&& self.timeouts_minutes <= 1_000_000
    }

    /// The machine's open interval can be committed into the store: the
    /// last stored interval either shares the open interval's start (a
    /// re-commit overwrites it) or ends no later than the open interval
    /// starts.
    pub open spec fn compatible(self, db: Database) -> bool {
        ||| db.rows@.len() == 0
        ||| db.rows@.last().start == self.last_start_time
        ||| db.rows@.last().end <= self.last_start_time
    }

    /// A fresh machine: the open interval is empty, starting now.
    pub fn new(now: Timestamp, timeout_minutes: u64) -> (rec: ActivityRecorder)
        requires
            valid_ts(now as int),
            timeout_minutes <= 1_000_000,
        ensures
            rec.last_event_time == now,
            rec.last_start_time == now,
            rec.comments@ == Seq::<char>::empty(),
            rec.timeouts_minutes == timeout_minutes,
            rec.wf(),
    {
        ActivityRecorder {
            last_event_time: now,
            last_start_time: now,
            comments: String::new(),
            timeouts_minutes: timeout_minutes,
        }
    }

    /// Feeds one event to the machine.
    ///
    /// An activity event within the idle timeout of the previous one
    /// only advances the open interval's end: nothing is committed
    /// until a gap exceeds the timeout or an explicit commit arrives.
    /// An activity event after a longer gap commits the open interval,
    /// clears the comment buffer, and starts a new open interval at the
    /// event's time. A comment event appends to the comment buffer. A
    /// commit event commits the open interval as it stands, without
    /// closing it.
    ///
    /// Activity events must arrive in non-decreasing time order.
    pub fn handle_event(&mut self, db: &mut Database, event: EventType)
        requires
            old(self).wf(),
            old(db).well_formed(),
            old(self).compatible(*old(db)),
            match event {
                EventType::Activity(t) => old(self).last_event_time <= t && valid_ts(t as int),
                _ => true,
            },
        ensures
            final(self).wf(),
            final(db).well_formed(),
            final(self).compatible(*final(db)),
            final(self).timeouts_minutes == old(self).timeouts_minutes,
            match event {
                EventType::Activity(t) => ({
                    &&& final(self).last_event_time == t
                    &&& final(db).special_days@ == old(db).special_days@
                    &&& if t - old(self).last_event_time > old(self).timeouts_minutes * 60 {
                        &&& final(db).rows@ == commit_spec(
                            old(db).rows@,
                            (WorktimeEntry {
                                start: old(self).last_start_time,
                                end: old(self).last_event_time,
                                comments: old(self).comments,
                            }),
                        )
                        &&& final(self).last_start_time == t
                        &&& final(self).comments@ == Seq::<char>::empty()
                    } else {
                        &&& final(db).rows@ == old(db).rows@
                        &&& final(self).last_start_time == old(self).last_start_time
                        &&& final(self).comments == old(self).comments
                    }
                }),
                EventType::Comment(c) => ({
                    &&& final(db).rows@ == old(db).rows@
                    &&& final(db).special_days@ == old(db).special_days@
                    &&& final(self).comments@ == old(self).comments@ + c@
                    &&& final(self).last_event_time == old(self).last_event_time
                    &&& final(self).last_start_time == old(self).last_start_time
                }),
                EventType::Commit => ({
                    &&& final(db).rows@ == commit_spec(
                        old(db).rows@,
                        (WorktimeEntry {
                            start: old(self).last_start_time,
                            end: old(self).last_event_time,
                            comments: old(self).comments,
                        }),
                    )
                    &&& final(db).special_days@ == old(db).special_days@
                    &&& *final(self) == *old(self)
                }),
            },
    {
        match event {
            EventType::Activity(t) => {
                let gap_limit: i64 = (self.timeouts_minutes as i64) * 60;
                let time_since_last_activity: i64 = t - self.last_event_time;
                if time_since_last_activity > gap_limit {
                    let entry = WorktimeEntry {
                        start: self.last_start_time,
                        end: self.last_event_time,
                        comments: self.comments.clone(),
                    };
                    db.commit_worktime(entry);
                    self.last_start_time = t;
                    self.comments = String::new();
                }
                self.last_event_time = t;
            }
            EventType::Comment(c) => {
                self.comments.append(c.as_str());
            }
            EventType::Commit => {
                let entry = WorktimeEntry {
                    start: self.last_start_time,
                    end: self.last_event_time,
                    comments: self.comments.clone(),
                };
                db.commit_worktime(entry);
            }
        }
    }
}

} // verus!
