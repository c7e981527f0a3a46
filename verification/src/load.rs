//! Bulk initialization of the store from persisted records: sorts both
//! collections and keeps the subset that respects the store's invariant,
//! so the engine continues with whatever loaded successfully.

use vstd::prelude::*;
use crate::interval::{entry_key_le, entry_valid, special_valid, SpecialDayEntry, WorktimeEntry};
use crate::store::{
    rows_disjoint, rows_sorted, rows_valid, specials_sorted, specials_valid, Database,
    MAX_SPECIAL_DAYS,
};
use crate::time::{MAX_DAY, MAX_TIMESTAMP};

verus! {

/// The entry placed into a sequence sorted by (start, end): after every
/// element that is no greater, before the rest. Equal keys keep their
/// arrival order.
pub open spec fn insert_entry(s: Seq<WorktimeEntry>, e: WorktimeEntry) -> Seq<WorktimeEntry>
    decreases s.len(),
{
    if s.len() == 0 {
        seq![e]
    } else if entry_key_le(s.last(), e) {
        s.push(e)
    } else {
        insert_entry(s.drop_last(), e).push(s.last())
    }
}

/// The interval records sorted ascending by (start, end) by repeated
/// insertion, keeping equal keys in arrival order.
pub open spec fn sort_entries(s: Seq<WorktimeEntry>) -> Seq<WorktimeEntry>
    decreases s.len(),
{
    if s.len() == 0 {
        Seq::empty()
    } else {
        insert_entry(sort_entries(s.drop_last()), s.last())
    }
}

/// The special-day records sorted ascending by date by repeated
/// insertion, keeping equal dates in arrival order.
pub open spec fn insert_special(s: Seq<SpecialDayEntry>, e: SpecialDayEntry) -> Seq<
    SpecialDayEntry,
>
    decreases s.len(),
{
    if s.len() == 0 {
        seq![e]
    } else if s.last().day <= e.day {
        s.push(e)
    } else {
        insert_special(s.drop_last(), e).push(s.last())
    }
}

/// See `insert_special`.
pub open spec fn sort_specials(s: Seq<SpecialDayEntry>) -> Seq<SpecialDayEntry>
    decreases s.len(),
{
    if s.len() == 0 {
        Seq::empty()
    } else {
        insert_special(sort_specials(s.drop_last()), s.last())
    }
}

/// The subset of the interval records that the store keeps, walking left
/// to right: a record survives when it is valid and starts no earlier
/// than the previously kept record ends. On sorted, valid,
/// non-overlapping input everything survives.
pub open spec fn clean_rows(s: Seq<WorktimeEntry>) -> Seq<WorktimeEntry>
    decreases s.len(),
{
    if s.len() == 0 {
        Seq::empty()
    } else {
        let rest = clean_rows(s.drop_last());
        let e = s.last();
        if entry_valid(e) && (rest.len() == 0 || rest.last().end <= e.start) {
            rest.push(e)
        } else {
            rest
        }
    }
}

/// The subset of the special-day records that the store keeps, walking
/// left to right: a record survives when its date is valid and no
/// earlier than the previously kept record's date. On sorted input with
/// valid dates everything survives, duplicate dates included.
pub open spec fn clean_specials(s: Seq<SpecialDayEntry>) -> Seq<SpecialDayEntry>
    decreases s.len(),
{
    if s.len() == 0 {
        Seq::empty()
    } else {
        let rest = clean_specials(s.drop_last());
        let e = s.last();
        if special_valid(e) && (rest.len() == 0 || rest.last().day <= e.day) {
            rest.push(e)
        } else {
            rest
        }
    }
}

/// What `clean_rows` keeps satisfies the store's interval invariant.
pub proof fn lemma_clean_rows_wf(s: Seq<WorktimeEntry>)
    ensures
        rows_valid(clean_rows(s)),
        rows_sorted(clean_rows(s)),
        rows_disjoint(clean_rows(s)),
        clean_rows(s).len() <= s.len(),
    decreases s.len(),
{
    if s.len() > 0 {
        lemma_clean_rows_wf(s.drop_last());
        let rest = clean_rows(s.drop_last());
        let e = s.last();
        if entry_valid(e) && (rest.len() == 0 || rest.last().end <= e.start) {
            let t = rest.push(e);
            assert forall|a: int, b: int| #![trigger t[a], t[b]]
                0 <= a < b < t.len() implies entry_key_le(t[a], t[b]) && t[a].end
                <= t[b].start by {
                if b < t.len() - 1 {
                    assert(t[a] == rest[a] && t[b] == rest[b]);
                } else {
                    assert(t[a] == rest[a]);
                    if a < rest.len() - 1 {
                        assert(rest[a].end <= rest[rest.len() - 1].start);
                        assert(entry_valid(rest[rest.len() - 1]));
                    }
                }
            }
        }
    }
}

/// What `clean_specials` keeps satisfies the store's special-day
/// invariant.
pub proof fn lemma_clean_specials_wf(s: Seq<SpecialDayEntry>)
    ensures
        specials_valid(clean_specials(s)),
        specials_sorted(clean_specials(s)),
        clean_specials(s).len() <= s.len(),
    decreases s.len(),
{
    if s.len() > 0 {
        lemma_clean_specials_wf(s.drop_last());
        let rest = clean_specials(s.drop_last());
        let e = s.last();
        if special_valid(e) && (rest.len() == 0 || rest.last().day <= e.day) {
            let t = rest.push(e);
            assert forall|a: int, b: int| #![trigger t[a], t[b]]
                0 <= a < b < t.len() implies t[a].day <= t[b].day by {
                if b < t.len() - 1 {
                    assert(t[a] == rest[a] && t[b] == rest[b]);
                } else {
                    assert(t[a] == rest[a]);
                    if a < rest.len() - 1 {
                        assert(rest[a].day <= rest[rest.len() - 1].day);
                    }
                }
            }
        }
    }
}

/// Whether `a` sorts no later than `b` in the store's (start, end)
/// order.
fn key_le(a: &WorktimeEntry, b: &WorktimeEntry) -> (r: bool)
    ensures
        r == entry_key_le(*a, *b),
{
    a.start < b.start || (a.start == b.start && a.end <= b.end)
}

/// Inserts `e` into the vector at its sorted (start, end) position,
/// after any equal keys already present.
fn insert_sorted(out: &mut Vec<WorktimeEntry>, e: WorktimeEntry)
    ensures
        final(out)@ == insert_entry(old(out)@, e),
{
    let ghost orig = old(out)@;
    let mut tail: Vec<WorktimeEntry> = Vec::new();
    while out.len() > 0 && !key_le(&out[out.len() - 1], &e)
        invariant
            insert_entry(orig, e) == insert_entry(out@, e) + tail@.reverse(),
        decreases out.len(),
    {
        let ghost prev_out = out@;
        let ghost prev_tail = tail@;
        let x = out.pop().unwrap();
        tail.push(x);
        proof {
            assert(insert_entry(prev_out, e) == insert_entry(out@, e).push(x));
            assert(tail@.reverse() =~= seq![x] + prev_tail.reverse());
            assert(insert_entry(out@, e).push(x) + prev_tail.reverse() =~= insert_entry(out@, e)
                + tail@.reverse());
        }
    }
    proof {
        if out@.len() == 0 {
            assert(insert_entry(out@, e) =~= out@.push(e));
        }
    }
    out.push(e);
    while tail.len() > 0
        invariant
            insert_entry(orig, e) == out@ + tail@.reverse(),
        decreases tail.len(),
    {
        let ghost prev_out = out@;
        let ghost prev_tail = tail@;
        let y = tail.pop().unwrap();
        out.push(y);
        proof {
            assert(prev_tail.reverse() =~= seq![y] + tail@.reverse());
            assert(prev_out + prev_tail.reverse() =~= out@ + tail@.reverse());
        }
    }
    proof {
        assert(insert_entry(orig, e) =~= out@);
    }
}

/// Inserts `e` into the vector at its sorted date position, after any
/// equal dates already present.
fn insert_sorted_special(out: &mut Vec<SpecialDayEntry>, e: SpecialDayEntry)
    ensures
        final(out)@ == insert_special(old(out)@, e),
{
    let ghost orig = old(out)@;
    let mut tail: Vec<SpecialDayEntry> = Vec::new();
    while out.len() > 0 && !(out[out.len() - 1].day <= e.day)
        invariant
            insert_special(orig, e) == insert_special(out@, e) + tail@.reverse(),
        decreases out.len(),
    {
        let ghost prev_out = out@;
        let ghost prev_tail = tail@;
        let x = out.pop().unwrap();
        tail.push(x);
        proof {
            assert(insert_special(prev_out, e) == insert_special(out@, e).push(x));
            assert(tail@.reverse() =~= seq![x] + prev_tail.reverse());
            assert(insert_special(out@, e).push(x) + prev_tail.reverse() =~= insert_special(
                out@,
                e,
            ) + tail@.reverse());
        }
    }
    proof {
        if out@.len() == 0 {
            assert(insert_special(out@, e) =~= out@.push(e));
        }
    }
    out.push(e);
    while tail.len() > 0
        invariant
            insert_special(orig, e) == out@ + tail@.reverse(),
        decreases tail.len(),
    {
        let ghost prev_out = out@;
        let ghost prev_tail = tail@;
        let y = tail.pop().unwrap();
        out.push(y);
        proof {
            assert(prev_tail.reverse() =~= seq![y] + tail@.reverse());
            assert(prev_out + prev_tail.reverse() =~= out@ + tail@.reverse());
        }
    }
    proof {
        assert(insert_special(orig, e) =~= out@);
    }
}

impl Database {
    /// Replaces the store's contents with the given records: both
    /// collections are sorted, and the subset respecting the store's
    /// invariant is kept, as `clean_rows` and `clean_specials` state.
    /// Sorted, valid, non-overlapping input is kept in full.
    pub fn load(&mut self, rows: Vec<WorktimeEntry>, special_days: Vec<SpecialDayEntry>)
        requires
            special_days@.len() <= MAX_SPECIAL_DAYS,
        ensures
            final(self).rows@ == clean_rows(sort_entries(rows@)),
            final(self).special_days@ == clean_specials(sort_specials(special_days@)),
            final(self).well_formed(),
    {
        // sort the interval records
        let mut sorted_rows: Vec<WorktimeEntry> = Vec::new();
        let mut i: usize = 0;
        while i < rows.len()
            invariant
                i <= rows.len(),
                sorted_rows@ == sort_entries(rows@.take(i as int)),
            decreases rows.len() - i,
        {
            proof {
                assert(rows@.take(i as int + 1).drop_last() =~= rows@.take(i as int));
            }
            insert_sorted(&mut sorted_rows, rows[i].duplicate());
            i = i + 1;
        }
        proof {
            assert(rows@.take(rows@.len() as int) =~= rows@);
        }

        // keep the subset of intervals that respects the invariant
        let mut kept_rows: Vec<WorktimeEntry> = Vec::new();
        let mut j: usize = 0;
        while j < sorted_rows.len()
            invariant
                j <= sorted_rows.len(),
                kept_rows@ == clean_rows(sorted_rows@.take(j as int)),
            decreases sorted_rows.len() - j,
        {
            proof {
                assert(sorted_rows@.take(j as int + 1).drop_last() =~= sorted_rows@.take(
                    j as int,
                ));
            }
            let e = &sorted_rows[j];
            let valid = -MAX_TIMESTAMP <= e.start && e.start <= MAX_TIMESTAMP && -MAX_TIMESTAMP
                <= e.end && e.end <= MAX_TIMESTAMP && e.start <= e.end;
            if valid && (kept_rows.len() == 0 || kept_rows[kept_rows.len() - 1].end <= e.start) {
                kept_rows.push(e.duplicate());
            }
            j = j + 1;
        }
        proof {
            assert(sorted_rows@.take(sorted_rows@.len() as int) =~= sorted_rows@);
        }

        // sort the special-day records
        let mut sorted_specials: Vec<SpecialDayEntry> = Vec::new();
        let mut k: usize = 0;
        while k < special_days.len()
            invariant
                k <= special_days.len(),
                sorted_specials@ == sort_specials(special_days@.take(k as int)),
                sorted_specials@.len() == k,
            decreases special_days.len() - k,
        {
            proof {
                assert(special_days@.take(k as int + 1).drop_last() =~= special_days@.take(
                    k as int,
                ));
                lemma_insert_special_len(sorted_specials@, special_days@[k as int]);
            }
            insert_sorted_special(&mut sorted_specials, special_days[k]);
            k = k + 1;
        }
        proof {
            assert(special_days@.take(special_days@.len() as int) =~= special_days@);
        }

        // keep the subset of special days that respects the invariant
        let mut kept_specials: Vec<SpecialDayEntry> = Vec::new();
        let mut m: usize = 0;
        while m < sorted_specials.len()
            invariant
                m <= sorted_specials.len(),
                kept_specials@ == clean_specials(sorted_specials@.take(m as int)),
                kept_specials@.len() <= m,
                sorted_specials@.len() <= MAX_SPECIAL_DAYS,
            decreases sorted_specials.len() - m,
        {
            proof {
                assert(sorted_specials@.take(m as int + 1).drop_last() =~= sorted_specials@.take(
                    m as int,
                ));
            }
            let e = sorted_specials[m];
            let valid = -MAX_DAY <= e.day && e.day <= MAX_DAY;
            if valid && (kept_specials.len() == 0 || kept_specials[kept_specials.len() - 1].day
                <= e.day) {
                kept_specials.push(e);
            }
            m = m + 1;
        }
        proof {
            assert(sorted_specials@.take(sorted_specials@.len() as int) =~= sorted_specials@);
            lemma_clean_rows_wf(sort_entries(rows@));
            lemma_clean_specials_wf(sort_specials(special_days@));
        }

        self.rows = kept_rows;
        self.special_days = kept_specials;
    }
}

/// Inserting one record grows a sequence by exactly one.
pub proof fn lemma_insert_special_len(s: Seq<SpecialDayEntry>, e: SpecialDayEntry)
    ensures
        insert_special(s, e).len() == s.len() + 1,
    decreases s.len(),
{
    if s.len() > 0 && !(s.last().day <= e.day) {
        lemma_insert_special_len(s.drop_last(), e);
    }
}

/// Sorting a sequence that is already sorted leaves it unchanged.
pub proof fn lemma_sort_entries_id(s: Seq<WorktimeEntry>)
    requires
        rows_sorted(s),
    ensures
        sort_entries(s) == s,
    decreases s.len(),
{
    if s.len() > 0 {
        assert(rows_sorted(s.drop_last())) by {
            assert(forall|i: int, j: int| #![trigger s.drop_last()[i], s.drop_last()[j]]
                0 <= i < j < s.drop_last().len() ==> entry_key_le(s[i], s[j]));
        }
        lemma_sort_entries_id(s.drop_last());
        if s.len() == 1 {
            assert(insert_entry(s.drop_last(), s.last()) =~= s);
        } else {
            assert(entry_key_le(s.drop_last().last(), s.last()));
            assert(s.drop_last().push(s.last()) =~= s);
        }
    }
}

/// Cleaning a sequence that already satisfies the store's interval
/// invariant keeps every record.
pub proof fn lemma_clean_rows_id(s: Seq<WorktimeEntry>)
    requires
        rows_valid(s),
        rows_sorted(s),
        rows_disjoint(s),
    ensures
        clean_rows(s) == s,
    decreases s.len(),
{
    if s.len() > 0 {
        assert(rows_valid(s.drop_last()) && rows_sorted(s.drop_last()) && rows_disjoint(
            s.drop_last(),
        )) by {
            assert(forall|i: int| 0 <= i < s.drop_last().len() ==> entry_valid(
                #[trigger] s.drop_last()[i],
            ));
            assert(forall|i: int, j: int| #![trigger s.drop_last()[i], s.drop_last()[j]]
                0 <= i < j < s.drop_last().len() ==> entry_key_le(s[i], s[j]) && s[i].end
                <= s[j].start);
        }
        lemma_clean_rows_id(s.drop_last());
        assert(entry_valid(s.last()));
        if s.len() > 1 {
            assert(s.drop_last().last().end <= s.last().start);
        }
        assert(s.drop_last().push(s.last()) =~= s);
    }
}

/// Law: bulk-loading interval records that are already sorted, valid
/// and non-overlapping initializes the store with exactly those
/// records, in the given order.
pub proof fn lemma_load_keeps_sorted_input(s: Seq<WorktimeEntry>)
    requires
        rows_valid(s),
        rows_sorted(s),
        rows_disjoint(s),
    ensures
        clean_rows(sort_entries(s)) == s,
{
    lemma_sort_entries_id(s);
    lemma_clean_rows_id(s);
}

} // verus!
