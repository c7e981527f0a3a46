//! The interval store: an ordered in-memory database of work intervals
//! and special-day markers, with the query, clipping and summing logic.

use vstd::prelude::*;
use crate::interval::{
    entry_key_le, entry_valid, special_valid, SpecialDayEntry, SpecialDayType, WorktimeEntry,
};
use crate::time::{
    day_number, day_of, day_start, is_weekend_day, valid_day, valid_ts, weekday_of,
    weekday_of_day, Timestamp, MAX_TIMESTAMP, SECONDS_PER_DAY,
};

verus! {

/// Range endpoints the queries accept: every valid timestamp, with enough
/// slack past `MAX_TIMESTAMP` that the bounds of the day or week holding
/// a valid timestamp are themselves acceptable endpoints.
pub const MAX_QUERY_TS: i64 = 4_100_000_000_000;

/// The most special-day records the store accepts, so that the bonus
/// arithmetic of the overtime calculation stays within `i64`.
pub const MAX_SPECIAL_DAYS: usize = 100_000_000;

/// A query-range endpoint the store accepts.
pub open spec fn valid_query_ts(t: int) -> bool {
    -MAX_QUERY_TS <= t <= MAX_QUERY_TS
}

/// Every stored interval is a valid one.
pub open spec fn rows_valid(s: Seq<WorktimeEntry>) -> bool {
    forall|i: int| 0 <= i < s.len() ==> entry_valid(#[trigger] s[i])
}

/// The intervals are sorted ascending by start, then by end.
pub open spec fn rows_sorted(s: Seq<WorktimeEntry>) -> bool {
    forall|i: int, j: int| #![trigger s[i], s[j]] 0 <= i < j < s.len() ==> entry_key_le(s[i], s[j])
}

/// No two stored intervals overlap: each ends no later than any later
/// one starts.
pub open spec fn rows_disjoint(s: Seq<WorktimeEntry>) -> bool {
    forall|i: int, j: int| #![trigger s[i], s[j]] 0 <= i < j < s.len() ==> s[i].end <= s[j].start
}

/// Every stored special day is a valid one.
pub open spec fn specials_valid(s: Seq<SpecialDayEntry>) -> bool {
    forall|i: int| 0 <= i < s.len() ==> special_valid(#[trigger] s[i])
}

/// The special days are sorted ascending by date.
pub open spec fn specials_sorted(s: Seq<SpecialDayEntry>) -> bool {
    forall|i: int, j: int| #![trigger s[i], s[j]] 0 <= i < j < s.len() ==> s[i].day <= s[j].day
}

/// The in-memory database of work intervals and special days.
///
/// The work intervals are kept sorted ascending by (start, end) and
/// non-overlapping; the special days sorted ascending by date. The store
/// owns its collections: queries hand out copies, never references.
pub struct Database {
    pub rows: Vec<WorktimeEntry>,
    pub special_days: Vec<SpecialDayEntry>,
}

/// What `commit_worktime` leaves in the store: the new entry replaces the
/// last stored interval when both share a start, and is appended
/// otherwise.
pub open spec fn commit_spec(s: Seq<WorktimeEntry>, e: WorktimeEntry) -> Seq<WorktimeEntry> {
    if s.len() > 0 && s.last().start == e.start {
        s.drop_last().push(e)
    } else {
        s.push(e)
    }
}

/// What a committed entry must satisfy: it is valid, and it either
/// extends the last stored interval (same start) or begins no earlier
/// than that interval ends. The segmentation state machine guarantees
/// this for every entry it commits.
pub open spec fn can_commit(s: Seq<WorktimeEntry>, e: WorktimeEntry) -> bool {
    &&& entry_valid(e)
    &&& (s.len() == 0 || s.last().start == e.start || s.last().end <= e.start)
}

/// Whether `x` lies in the half-open range `[start, end)`.
pub open spec fn in_range(x: i64, start: i64, end: i64) -> bool {
    start <= x && x < end
}

/// Whether an interval overlaps the half-open range `[from_t, to_t)`:
/// its start or its end falls inside the range, or it covers the whole
/// of a non-empty range.
pub open spec fn overlaps(e: WorktimeEntry, from_t: i64, to_t: i64) -> bool {
    ||| in_range(e.start, from_t, to_t)
    ||| in_range(e.end, from_t, to_t)
    ||| (e.start < from_t && to_t <= e.end && from_t < to_t)
}

/// The interval clipped to `[from_t, to_t]`: a start before the range is
/// raised to `from_t`, an end past the range lowered to `to_t`.
pub open spec fn clip(e: WorktimeEntry, from_t: i64, to_t: i64) -> WorktimeEntry {
    WorktimeEntry {
        start: if e.start <= from_t {
            from_t
        } else {
            e.start
        },
        end: if to_t <= e.end {
            to_t
        } else {
            e.end
        },
        comments: e.comments,
    }
}

/// What `query` returns: the stored intervals overlapping the range, in
/// store order, each clipped to the range.
pub open spec fn query_spec(s: Seq<WorktimeEntry>, from_t: i64, to_t: i64) -> Seq<WorktimeEntry>
    decreases s.len(),
{
    if s.len() == 0 {
        Seq::empty()
    } else {
        let rest = query_spec(s.drop_last(), from_t, to_t);
        if overlaps(s.last(), from_t, to_t) {
            rest.push(clip(s.last(), from_t, to_t))
        } else {
            rest
        }
    }
}

/// Whether a special day falls in the half-open range `[from_t, to_t)`,
/// its date read as the local midnight opening it.
pub open spec fn special_in_range(e: SpecialDayEntry, from_t: i64, to_t: i64) -> bool {
    from_t <= day_start(e.day as int) && day_start(e.day as int) < to_t
}

/// What `query_special_days` returns: the stored special days falling in
/// the range, in store order.
pub open spec fn query_specials_spec(
    s: Seq<SpecialDayEntry>,
    from_t: i64,
    to_t: i64,
) -> Seq<SpecialDayEntry>
    decreases s.len(),
{
    if s.len() == 0 {
        Seq::empty()
    } else {
        let rest = query_specials_spec(s.drop_last(), from_t, to_t);
        if special_in_range(s.last(), from_t, to_t) {
            rest.push(s.last())
        } else {
            rest
        }
    }
}

/// The total elapsed seconds over a sequence of intervals.
pub open spec fn sum_durations(s: Seq<WorktimeEntry>) -> int
    decreases s.len(),
{
    if s.len() == 0 {
        0
    } else {
        sum_durations(s.drop_last()) + (s.last().end - s.last().start)
    }
}

/// The total worked seconds of the calendar day holding `t`.
pub open spec fn day_sum_spec(rows: Seq<WorktimeEntry>, t: int) -> int {
    sum_durations(
        query_spec(rows, day_start(day_of(t)) as i64, day_start(day_of(t) + 1) as i64),
    )
}

impl Database {
    /// The store's invariant: both collections sorted, every record
    /// valid, the intervals non-overlapping, and the special-day count
    /// within the accepted bound.
    pub open spec fn well_formed(self) -> bool {
        &&& rows_valid(self.rows@)
        &&& rows_sorted(self.rows@)
        &&& rows_disjoint(self.rows@)
        &&& specials_valid(self.special_days@)
        &&& specials_sorted(self.special_days@)
        &&& self.special_days@.len() <= MAX_SPECIAL_DAYS
    }

    /// An empty store.
    pub fn new() -> (db: Database)
        ensures
            db.rows@ == Seq::<WorktimeEntry>::empty(),
            db.special_days@ == Seq::<SpecialDayEntry>::empty(),
            db.well_formed(),
    {
        Database { rows: Vec::new(), special_days: Vec::new() }
    }

    /// Whether `element` lies in the half-open range `[start, end)`.
    pub fn is_in_range(element: Timestamp, start: Timestamp, end: Timestamp) -> (r: bool)
        ensures
            r == in_range(element, start, end),
    {
        start <= element && element < end
    }

    /// Appends a finished interval. If the last stored interval has the
    /// same start, it is overwritten instead: this lets the still-open
    /// interval be re-committed with a later end as activity continues.
    pub fn commit_worktime(&mut self, entry: WorktimeEntry)
        requires
            old(self).well_formed(),
            can_commit(old(self).rows@, entry),
        ensures
            final(self).rows@ == commit_spec(old(self).rows@, entry),
            final(self).special_days@ == old(self).special_days@,
            final(self).well_formed(),
    {
        let n = self.rows.len();
        if n > 0 && self.rows[n - 1].start == entry.start {
            self.rows.pop();
        }
        self.rows.push(entry);
        proof {
            let s = old(self).rows@;
            let t = self.rows@;
            if s.len() > 0 && s.last().start == entry.start {
                assert(t =~= s.drop_last().push(entry));
                assert forall|a: int, b: int| #![trigger t[a], t[b]]
                    0 <= a < b < t.len() implies entry_key_le(t[a], t[b]) && t[a].end
                    <= t[b].start by {
                    if b < t.len() - 1 {
                        assert(t[a] == s[a] && t[b] == s[b]);
                    } else {
                        assert(t[a] == s[a]);
                        assert(s[a].end <= s[s.len() - 1].start);
                    }
                }
            } else {
                assert(t =~= s.push(entry));
                assert forall|a: int, b: int| #![trigger t[a], t[b]]
                    0 <= a < b < t.len() implies entry_key_le(t[a], t[b]) && t[a].end
                    <= t[b].start by {
                    if b < t.len() - 1 {
                        assert(t[a] == s[a] && t[b] == s[b]);
                    } else if a < s.len() - 1 {
                        assert(t[a] == s[a]);
                        assert(s[a].end <= s[s.len() - 1].start);
                        assert(entry_valid(s[s.len() - 1]));
                    } else {
                        assert(t[a] == s[a]);
                    }
                }
            }
        }
    }

    /// A copy of the stored intervals, for persistence.
    pub fn snapshot(&self) -> (r: Vec<WorktimeEntry>)
        ensures
            r@ == self.rows@,
    {
        let mut r: Vec<WorktimeEntry> = Vec::new();
        let mut i: usize = 0;
        while i < self.rows.len()
            invariant
                i <= self.rows.len(),
                r@ == self.rows@.take(i as int),
            decreases self.rows.len() - i,
        {
            r.push(self.rows[i].duplicate());
            proof {
                assert(self.rows@.take(i as int + 1).drop_last() =~= self.rows@.take(i as int));
                assert(r@ =~= self.rows@.take(i as int + 1));
            }
            i += 1;
        }
        proof {
            assert(self.rows@.take(self.rows@.len() as int) =~= self.rows@);
        }
        r
    }

    /// Every stored interval overlapping the half-open range, in store
    /// order, clipped to the range. The result is again sorted, valid,
    /// non-overlapping, and contained in the range; the store is not
    /// changed.
    pub fn query(&self, range: (Timestamp, Timestamp)) -> (r: Vec<WorktimeEntry>)
        requires
            self.well_formed(),
            valid_query_ts(range.0 as int),
            valid_query_ts(range.1 as int),
        ensures
            r@ == query_spec(self.rows@, range.0, range.1),
            rows_valid(r@),
            rows_sorted(r@),
            rows_disjoint(r@),
            forall|k: int|
                0 <= k < r@.len() ==> range.0 <= (#[trigger] r@[k]).start && r@[k].end <= range.1,
    {
        let from_t = range.0;
        let to_t = range.1;
        let mut r: Vec<WorktimeEntry> = Vec::new();
        let mut i: usize = 0;
        while i < self.rows.len()
            invariant
                i <= self.rows.len(),
                self.well_formed(),
                valid_query_ts(from_t as int),
                valid_query_ts(to_t as int),
                r@ == query_spec(self.rows@.take(i as int), from_t, to_t),
                rows_valid(r@),
                rows_sorted(r@),
                rows_disjoint(r@),
                forall|k: int|
                    0 <= k < r@.len() ==> from_t <= (#[trigger] r@[k]).start && r@[k].end <= to_t,
                forall|k: int, j: int| #![trigger r@[k], self.rows@[j]]
                    0 <= k < r@.len() && i <= j < self.rows@.len() ==> r@[k].end
                    <= self.rows@[j].start,
            decreases self.rows.len() - i,
        {
            proof {
                assert(self.rows@.take(i as int + 1).drop_last() =~= self.rows@.take(i as int));
            }
            let e = &self.rows[i];
            let hit = Self::is_in_range(e.start, from_t, to_t) || Self::is_in_range(
                e.end,
                from_t,
                to_t,
            ) || (e.start < from_t && to_t <= e.end && from_t < to_t);
            if hit {
                let clipped = WorktimeEntry {
                    start: if e.start <= from_t {
                        from_t
                    } else {
                        e.start
                    },
                    end: if to_t <= e.end {
                        to_t
                    } else {
                        e.end
                    },
                    comments: e.comments.clone(),
                };
                proof {
                    assert(clipped == clip(self.rows@[i as int], from_t, to_t));
                }
                r.push(clipped);
            }
            i += 1;
        }
        proof {
            assert(self.rows@.take(self.rows@.len() as int) =~= self.rows@);
        }
        r
    }

    /// Every stored special day whose date, read as its opening local
    /// midnight, falls in the half-open range; in store order.
    pub fn query_special_days(&self, range: (Timestamp, Timestamp)) -> (r: Vec<SpecialDayEntry>)
        requires
            self.well_formed(),
        ensures
            r@ == query_specials_spec(self.special_days@, range.0, range.1),
            specials_valid(r@),
            r@.len() <= self.special_days@.len(),
    {
        let mut r: Vec<SpecialDayEntry> = Vec::new();
        let mut i: usize = 0;
        while i < self.special_days.len()
            invariant
                i <= self.special_days.len(),
                self.well_formed(),
                r@ == query_specials_spec(self.special_days@.take(i as int), range.0, range.1),
                specials_valid(r@),
                r@.len() <= i,
            decreases self.special_days.len() - i,
        {
            proof {
                assert(self.special_days@.take(i as int + 1).drop_last() =~= self.special_days@
                    .take(i as int));
            }
            let e = self.special_days[i];
            let midnight: i64 = e.day * SECONDS_PER_DAY;
            if range.0 <= midnight && midnight < range.1 {
                r.push(e);
            }
            i += 1;
        }
        proof {
            assert(self.special_days@.take(self.special_days@.len() as int) =~= self
                .special_days@);
        }
        r
    }

    /// The total elapsed seconds over a sequence of already-clipped,
    /// sorted, non-overlapping intervals, as a query returns them.
    pub fn sum_duration(entries: &Vec<WorktimeEntry>) -> (total: i64)
        requires
            rows_valid(entries@),
            rows_sorted(entries@),
            rows_disjoint(entries@),
        ensures
            total == sum_durations(entries@),
            0 <= total <= 2 * MAX_TIMESTAMP,
    {
        let mut total: i64 = 0;
        let mut i: usize = 0;
        while i < entries.len()
            invariant
                i <= entries.len(),
                rows_valid(entries@),
                rows_sorted(entries@),
                rows_disjoint(entries@),
                total == sum_durations(entries@.take(i as int)),
                i == 0 ==> total == 0,
                i > 0 ==> 0 <= total <= entries@[i as int - 1].end - entries@[0].start,
            decreases entries.len() - i,
        {
            proof {
                assert(entries@.take(i as int + 1).drop_last() =~= entries@.take(i as int));
            }
            let e = &entries[i];
            let d: i64 = e.end - e.start;
            total = total + d;
            i += 1;
        }
        proof {
            assert(entries@.take(entries@.len() as int) =~= entries@);
        }
        total
    }

    /// The bounds of the calendar day holding `time`, as the half-open
    /// range from its opening midnight to the next midnight.
    pub fn get_day_bounds(time: Timestamp) -> (b: (Timestamp, Timestamp))
        requires
            valid_ts(time as int),
        ensures
            b.0 == day_start(day_of(time as int)),
            b.1 == day_start(day_of(time as int) + 1),
            b.0 <= time < b.1,
            valid_query_ts(b.0 as int),
            valid_query_ts(b.1 as int),
    {
        let d = day_number(time);
        (d * SECONDS_PER_DAY, (d + 1) * SECONDS_PER_DAY)
    }

    /// The bounds of the ISO week (Monday through Sunday) holding
    /// `time`, as the half-open range from Monday's midnight to the
    /// following Monday's midnight.
    pub fn get_week_bounds(time: Timestamp) -> (b: (Timestamp, Timestamp))
        requires
            valid_ts(time as int),
        ensures
            b.0 == day_start(day_of(time as int) - weekday_of_day(day_of(time as int))),
            b.1 == day_start(day_of(time as int) - weekday_of_day(day_of(time as int)) + 7),
            b.0 <= time < b.1,
            valid_query_ts(b.0 as int),
            valid_query_ts(b.1 as int),
    {
        let d = day_number(time);
        let wd = weekday_of(d);
        let monday = d - wd;
        (monday * SECONDS_PER_DAY, (monday + 7) * SECONDS_PER_DAY)
    }

    /// The total worked seconds of the calendar day holding `day`.
    pub fn get_day_sum(&self, day: Timestamp) -> (total: i64)
        requires
            self.well_formed(),
            valid_ts(day as int),
        ensures
            total == day_sum_spec(self.rows@, day as int),
            0 <= total,
    {
        let bounds = Self::get_day_bounds(day);
        let entries = self.query(bounds);
        Self::sum_duration(&entries)
    }

    /// For each of the `num_days` calendar days walking backward from
    /// `now`, the day's closing bound (the next midnight) paired with
    /// the worked seconds of that day; the day holding `now` first.
    pub fn get_day_sums(&self, now: Timestamp, num_days: u64) -> (r: Vec<(Timestamp, i64)>)
        requires
            self.well_formed(),
            valid_ts(now as int),
            now - (num_days as int) * (SECONDS_PER_DAY as int) >= -MAX_TIMESTAMP,
        ensures
            r@.len() == num_days,
            forall|k: int|
                0 <= k < r@.len() ==> (#[trigger] r@[k]).0 == day_start(
                    day_of(now - k * (SECONDS_PER_DAY as int)) + 1,
                ) && r@[k].1 == day_sum_spec(self.rows@, now - k * (SECONDS_PER_DAY as int)),
    {
        let mut time: Timestamp = now;
        let mut r: Vec<(Timestamp, i64)> = Vec::new();
        let mut i: u64 = 0;
        while i < num_days
            invariant
                i <= num_days,
                self.well_formed(),
                valid_ts(now as int),
                now - (num_days as int) * (SECONDS_PER_DAY as int) >= -MAX_TIMESTAMP,
                time == now - (i as int) * (SECONDS_PER_DAY as int),
                valid_ts(time as int),
                r@.len() == i,
                forall|k: int|
                    0 <= k < r@.len() ==> (#[trigger] r@[k]).0 == day_start(
                        day_of(now - k * (SECONDS_PER_DAY as int)) + 1,
                    ) && r@[k].1 == day_sum_spec(self.rows@, now - k * (SECONDS_PER_DAY as int)),
            decreases num_days - i,
        {
            let bounds = Self::get_day_bounds(time);
            let day_total = self.get_day_sum(time);
            r.push((bounds.1, day_total));
            time = time - SECONDS_PER_DAY;
            i = i + 1;
        }
        r
    }

    /// The expected worked seconds of one calendar day for the
    /// day-by-day report: none on a weekend or on a day carrying a
    /// vacation, sick or holiday record; a fifth of the weekly hours,
    /// in whole hours, otherwise.
    pub fn day_expected_seconds(&self, day: i64, weekly_hours: i64) -> (r: i64)
        requires
            self.well_formed(),
            valid_day(day as int),
            0 <= weekly_hours <= 10_000,
        ensures
            r == if is_weekend_day(day as int) || has_blocking_special(
                self.special_days@,
                day,
            ) {
                0int
            } else {
                (weekly_hours as int) / 5 * 3600
            },
    {
        let wd = weekday_of(day);
        if wd == 5 || wd == 6 {
            return 0;
        }
        let mut i: usize = 0;
        while i < self.special_days.len()
            invariant
                i <= self.special_days.len(),
                self.well_formed(),
                forall|k: int|
                    0 <= k < i ==> !((#[trigger] self.special_days@[k]).day == day
                        && self.special_days@[k].day_type != SpecialDayType::Leave),
            decreases self.special_days.len() - i,
        {
            let sd = self.special_days[i];
            if sd.day == day && !(sd.day_type == SpecialDayType::Leave) {
                proof {
                    assert(self.special_days@[i as int].day == day && self.special_days@[
                        i as int
                    ].day_type != SpecialDayType::Leave);
                }
                return 0;
            }
            i = i + 1;
        }
        weekly_hours / 5 * 3600
    }
}

/// Whether some special-day record flags `day` as non-working for the
/// day-by-day report: any record on that date except a leave record.
pub open spec fn has_blocking_special(s: Seq<SpecialDayEntry>, day: i64) -> bool {
    exists|i: int|
        0 <= i < s.len() && (#[trigger] s[i]).day == day && s[i].day_type != SpecialDayType::Leave
}

/// Law: querying is repeatable. The result is a function of the stored
/// intervals and the range alone, so querying the same store twice with
/// the same range, with no mutation in between, yields identical
/// results: both calls return `query_spec` of the same arguments.
pub proof fn lemma_query_idempotent(
    rows1: Seq<WorktimeEntry>,
    rows2: Seq<WorktimeEntry>,
    from_t: i64,
    to_t: i64,
)
    requires
        rows1 == rows2,
    ensures
        query_spec(rows1, from_t, to_t) == query_spec(rows2, from_t, to_t),
{
}

/// Law: committing an entry and then a second entry with the same start
/// leaves the store exactly as committing only the second would have:
/// the first is overwritten, never duplicated.
pub proof fn lemma_commit_overwrite(s: Seq<WorktimeEntry>, e1: WorktimeEntry, e2: WorktimeEntry)
    requires
        e1.start == e2.start,
    ensures
        commit_spec(commit_spec(s, e1), e2) == commit_spec(s, e2),
{
    let t = commit_spec(s, e1);
    if s.len() > 0 && s.last().start == e1.start {
        assert(t == s.drop_last().push(e1));
        assert(t.drop_last() =~= s.drop_last());
        assert(commit_spec(t, e2) =~= s.drop_last().push(e2));
    } else {
        assert(t == s.push(e1));
        assert(t.drop_last() =~= s);
        assert(commit_spec(t, e2) =~= s.push(e2));
    }
}

} // verus!
