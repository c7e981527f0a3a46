//! The overtime calculation: worked time in a range against a prorated
//! expectation derived from a weekly target, a five-day work week, and
//! credit for special (non-working) days.

use vstd::prelude::*;
use vstd::arithmetic::div_mod::{
    lemma_div_is_ordered, lemma_div_nonincreasing, lemma_div_pos_is_pos,
    lemma_fundamental_div_mod, lemma_fundamental_div_mod_converse,
    lemma_mod_division_less_than_divisor,
};
use crate::interval::{SpecialDayEntry, WorktimeEntry};
use crate::store::{
    query_spec, query_specials_spec, special_in_range, specials_valid, sum_durations, Database,
    MAX_SPECIAL_DAYS,
};
use crate::time::{
    day_number, day_of, day_start, is_weekend_day, valid_ts, weekday_of, weekday_of_day,
    Timestamp, SECONDS_PER_DAY,
};

verus! {

/// The most seconds a weekly work target may ask for: one full week.
pub const MAX_WEEKLY_TARGET: i64 = 604_800;

/// How many of the `n` consecutive civil days starting at `first_day`
/// are workdays, that is, not Saturdays or Sundays.
pub open spec fn count_workdays(first_day: int, n: int) -> int
    decreases n,
{
    if n <= 0 {
        0
    } else {
        count_workdays(first_day, n - 1) + if is_weekend_day(first_day + n - 1) {
            0int
        } else {
            1int
        }
    }
}

/// How many of the given special-day records fall on a workday. Each
/// record counts on its own, so several records for one date are
/// additive.
pub open spec fn count_bonus_days(s: Seq<SpecialDayEntry>) -> int
    decreases s.len(),
{
    if s.len() == 0 {
        0
    } else {
        count_bonus_days(s.drop_last()) + if is_weekend_day(s.last().day as int) {
            0int
        } else {
            1int
        }
    }
}

/// What `calculate_overtime` returns. The range is first normalized to
/// the opening midnights of the days holding its endpoints. Worked time
/// is the clipped sum over that normalized range. The expectation is the
/// full weekly target for each whole week, plus a fifth of the target
/// for each workday of the partial week at the end; each special-day
/// record on a workday in the range credits a fifth of the target back.
pub open spec fn overtime_spec(
    rows: Seq<WorktimeEntry>,
    specials: Seq<SpecialDayEntry>,
    weekly: i64,
    from_t: i64,
    to_t: i64,
) -> int {
    let start_day = day_of(from_t as int);
    let end_day = day_of(to_t as int);
    let from_mid = day_start(start_day) as i64;
    let to_mid = day_start(end_day) as i64;
    let total_days = end_day - start_day;
    let weeks = total_days / 7;
    let rem_days = total_days % 7;
    let per_day = (weekly as int) / 5;
    let worked = sum_durations(query_spec(rows, from_mid, to_mid));
    let bonus = per_day * count_bonus_days(query_specials_spec(specials, from_mid, to_mid));
    worked - (weekly as int) * weeks - per_day * count_workdays(start_day + 7 * weeks, rem_days)
        + bonus
}

/// Stepping one civil day forward steps the weekday cyclically.
pub proof fn lemma_weekday_succ(d: int)
    ensures
        weekday_of_day(d + 1) == if weekday_of_day(d) == 6 {
            0int
        } else {
            weekday_of_day(d) + 1
        },
{
    lemma_fundamental_div_mod(d + 3, 7);
    lemma_mod_division_less_than_divisor(d + 3, 7);
    let q = (d + 3) / 7;
    let w = (d + 3) % 7;
    if w == 6 {
        lemma_fundamental_div_mod_converse(d + 4, 7, q + 1, 0);
    } else {
        lemma_fundamental_div_mod_converse(d + 4, 7, q, w + 1);
    }
}

impl Database {
    /// The signed overtime over `range`: worked seconds minus the
    /// prorated expectation, plus the special-day credit, as
    /// `overtime_spec` states. An empty range yields zero on every
    /// term; a range with no stored intervals still yields the
    /// (typically negative) deviation from the expectation.
    pub fn calculate_overtime(&self, weekly_worktime: i64, range: (Timestamp, Timestamp)) -> (r:
        i64)
        requires
            self.well_formed(),
            valid_ts(range.0 as int),
            valid_ts(range.1 as int),
            range.0 <= range.1,
            0 <= weekly_worktime <= MAX_WEEKLY_TARGET,
        ensures
            r == overtime_spec(
                self.rows@,
                self.special_days@,
                weekly_worktime,
                range.0,
                range.1,
            ),
    {
        let (start, end) = range;
        let start_day = day_number(start);
        let end_day = day_number(end);
        proof {
            lemma_div_is_ordered(start as int, end as int, SECONDS_PER_DAY as int);
        }
        let start_of_calculation = start_day * SECONDS_PER_DAY;
        let start_of_today = end_day * SECONDS_PER_DAY;

        let entries = self.query((start_of_calculation, start_of_today));
        let total_hours = Self::sum_duration(&entries);

        let total_days = end_day - start_day;
        let weeks = total_days / 7;
        proof {
            lemma_fundamental_div_mod(total_days as int, 7);
            lemma_mod_division_less_than_divisor(total_days as int, 7);
            lemma_div_pos_is_pos(total_days as int, 7);
            lemma_div_nonincreasing(total_days as int, 7);
            assert(0 <= weekly_worktime * weeks <= 604_800int * 96_000_000int)
                by (nonlinear_arith)
                requires
                    0 <= weekly_worktime <= 604_800,
                    0 <= weeks <= 96_000_000,
            ;
        }
        let days = total_days - weeks * 7;
        let expected_from_whole_weeks = weekly_worktime * weeks;

        let per_day = weekly_worktime / 5;
        let first_partial_day = start_day + weeks * 7;
        let mut day_of_partial_week = weekday_of(first_partial_day);
        let mut expected_from_partial_weeks: i64 = 0;
        let mut i: i64 = 0;
        while i < days
            invariant
                0 <= i <= days,
                0 <= days < 7,
                0 <= per_day <= 120_960,
                day_of_partial_week == weekday_of_day(first_partial_day + i),
                0 <= day_of_partial_week < 7,
                expected_from_partial_weeks == per_day * count_workdays(
                    first_partial_day as int,
                    i as int,
                ),
                0 <= expected_from_partial_weeks <= 120_960 * i,
            decreases days - i,
        {
            proof {
                assert(per_day * (count_workdays(first_partial_day as int, i as int) + 1)
                    == per_day * count_workdays(first_partial_day as int, i as int) + per_day)
                    by (nonlinear_arith);
                lemma_weekday_succ(first_partial_day as int + i as int);
            }
            if day_of_partial_week != 5 && day_of_partial_week != 6 {
                expected_from_partial_weeks = expected_from_partial_weeks + per_day;
            }
            day_of_partial_week = if day_of_partial_week == 6 {
                0
            } else {
                day_of_partial_week + 1
            };
            i = i + 1;
        }

        let specials = self.query_special_days((start_of_calculation, start_of_today));
        let mut special_days_bonus_time: i64 = 0;
        let mut j: usize = 0;
        while j < specials.len()
            invariant
                j <= specials.len(),
                specials@.len() <= MAX_SPECIAL_DAYS,
                specials_valid(specials@),
                0 <= per_day <= 120_960,
                special_days_bonus_time == per_day * count_bonus_days(specials@.take(j as int)),
                0 <= special_days_bonus_time <= 120_960 * j,
            decreases specials.len() - j,
        {
            proof {
                assert(specials@.take(j as int + 1).drop_last() =~= specials@.take(j as int));
                assert(per_day * (count_bonus_days(specials@.take(j as int)) + 1) == per_day
                    * count_bonus_days(specials@.take(j as int)) + per_day) by (nonlinear_arith);
            }
            let sd = specials[j];
            let w = weekday_of(sd.day);
            if w != 5 && w != 6 {
                special_days_bonus_time = special_days_bonus_time + per_day;
            }
            j = j + 1;
        }
        proof {
            assert(specials@.take(specials@.len() as int) =~= specials@);
        }

        total_hours - expected_from_whole_weeks - expected_from_partial_weeks
            + special_days_bonus_time
    }
}

/// Law: one more special-day record on a workday inside the queried
/// range raises the overtime result by exactly a fifth of the weekly
/// target, whatever the store otherwise holds.
pub proof fn lemma_special_day_credit(
    rows: Seq<WorktimeEntry>,
    specials: Seq<SpecialDayEntry>,
    extra: SpecialDayEntry,
    weekly: i64,
    from_t: i64,
    to_t: i64,
)
    requires
        !is_weekend_day(extra.day as int),
        special_in_range(
            extra,
            day_start(day_of(from_t as int)) as i64,
            day_start(day_of(to_t as int)) as i64,
        ),
    ensures
        overtime_spec(rows, specials.push(extra), weekly, from_t, to_t) == overtime_spec(
            rows,
            specials,
            weekly,
            from_t,
            to_t,
        ) + (weekly as int) / 5,
{
    let from_mid = day_start(day_of(from_t as int)) as i64;
    let to_mid = day_start(day_of(to_t as int)) as i64;
    let with_extra = specials.push(extra);
    assert(with_extra.drop_last() =~= specials);
    let q = query_specials_spec(specials, from_mid, to_mid);
    assert(query_specials_spec(with_extra, from_mid, to_mid) == q.push(extra));
    assert(q.push(extra).drop_last() =~= q);
    assert(count_bonus_days(q.push(extra)) == count_bonus_days(q) + 1);
    let per_day = (weekly as int) / 5;
    assert(per_day * (count_bonus_days(q) + 1) == per_day * count_bonus_days(q) + per_day)
        by (nonlinear_arith);
}

} // verus!
