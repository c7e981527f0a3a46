use worktime::interval::{SpecialDayEntry, SpecialDayType, WorktimeEntry};
use worktime::store::Database;
use worktime::time::{civil_day_number, timestamp_from_ymd_hms};

fn ts(y: i64, mo: i64, d: i64, h: i64, mi: i64, s: i64) -> i64 {
    timestamp_from_ymd_hms(y, mo, d, h, mi, s)
}

fn hours(h: i64) -> i64 {
    h * 3600
}

fn minutes(m: i64) -> i64 {
    m * 60
}

fn entry(start: i64, end: i64) -> WorktimeEntry {
    WorktimeEntry { start, end, comments: String::new() }
}

#[test]
fn test_overtime_empty_db_empty_range() {
    let db = Database { rows: vec![], special_days: vec![] };
    let start = ts(2023, 5, 1, 0, 0, 0);
    let end = ts(2023, 5, 1, 0, 0, 0);
    let weekly_hours = hours(40);

    assert_eq!(db.calculate_overtime(weekly_hours, (start, end)), hours(0));
}

#[test]
fn test_overtime_empty_db_valid_range_weekday() {
    let db = Database { rows: vec![], special_days: vec![] };
    let start = ts(2023, 5, 2, 0, 0, 0);
    let end = ts(2023, 5, 4, 0, 0, 0);
    let weekly_hours = hours(40);

    assert_eq!(db.calculate_overtime(weekly_hours, (start, end)), hours(-16));
}

#[test]
fn test_overtime_empty_db_valid_range_weekend() {
    let db = Database { rows: vec![], special_days: vec![] };
    let start = ts(2023, 5, 5, 0, 0, 0);
    let end = ts(2023, 5, 7, 0, 0, 0);
    let weekly_hours = hours(40);

    assert_eq!(db.calculate_overtime(weekly_hours, (start, end)), hours(-8));
}

#[test]
fn test_overtime_empty_db_valid_range_only_weekend() {
    let db = Database { rows: vec![], special_days: vec![] };
    let start = ts(2023, 5, 6, 0, 0, 0);
    let end = ts(2023, 5, 8, 0, 0, 0);
    let weekly_hours = hours(40);

    assert_eq!(db.calculate_overtime(weekly_hours, (start, end)), hours(0));
}

#[test]
fn test_overtime_empty_db_valid_range_full_week() {
    let db = Database { rows: vec![], special_days: vec![] };
    let start = ts(2023, 5, 17, 0, 0, 0);
    let end = ts(2023, 5, 24, 0, 0, 0);
    let weekly_hours = hours(40);

    assert_eq!(db.calculate_overtime(weekly_hours, (start, end)), hours(-40));
}

#[test]
fn test_overtime_empty_db_valid_range_full_week_not_0_clock() {
    let db = Database { rows: vec![], special_days: vec![] };
    let start = ts(2023, 5, 17, 16, 22, 12);
    let end = ts(2023, 5, 24, 2, 1, 8);
    let weekly_hours = hours(40);

    assert_eq!(db.calculate_overtime(weekly_hours, (start, end)), hours(-40));
}

#[test]
fn test_overtime_empty_db_valid_range_full_year() {
    let db = Database { rows: vec![], special_days: vec![] };
    let start = ts(2023, 1, 1, 0, 0, 0);
    let end = ts(2024, 1, 1, 0, 0, 0);
    let weekly_hours = hours(40);

    assert_eq!(db.calculate_overtime(weekly_hours, (start, end)), hours(-2080));
}

#[test]
fn test_overtime_single_entry_worked_sunday() {
    let db = Database {
        rows: vec![entry(ts(2023, 1, 1, 0, 0, 0), ts(2023, 1, 1, 1, 0, 0))],
        special_days: vec![],
    };
    let start = ts(2023, 1, 1, 0, 0, 0);
    let end = ts(2023, 1, 3, 0, 0, 0);
    let weekly_hours = hours(40);

    assert_eq!(db.calculate_overtime(weekly_hours, (start, end)), hours(-7));
}

#[test]
fn test_overtime_single_entry_worked_monday_full() {
    let db = Database {
        rows: vec![entry(ts(2023, 1, 2, 8, 0, 0), ts(2023, 1, 2, 16, 0, 0))],
        special_days: vec![],
    };
    let start = ts(2023, 1, 1, 0, 0, 0);
    let end = ts(2023, 1, 3, 0, 0, 0);
    let weekly_hours = hours(40);

    assert_eq!(db.calculate_overtime(weekly_hours, (start, end)), hours(0));
}

#[test]
fn test_overtime_single_entry_worked_monday_overtime() {
    let db = Database {
        rows: vec![
            entry(ts(2023, 1, 2, 8, 0, 0), ts(2023, 1, 2, 16, 0, 0)),
            entry(ts(2023, 1, 2, 17, 0, 0), ts(2023, 1, 2, 17, 15, 0)),
        ],
        special_days: vec![],
    };
    let start = ts(2023, 1, 1, 0, 0, 0);
    let end = ts(2023, 1, 3, 0, 0, 0);
    let weekly_hours = hours(40);

    assert_eq!(db.calculate_overtime(weekly_hours, (start, end)), hours(0) + minutes(15));
}

#[test]
fn test_overtime_single_entry_worked_out_of_range() {
    let db = Database {
        rows: vec![
            entry(ts(2023, 1, 2, 8, 0, 0), ts(2023, 1, 2, 16, 0, 0)),
            entry(ts(2023, 1, 3, 17, 0, 0), ts(2023, 1, 3, 17, 15, 0)),
        ],
        special_days: vec![],
    };
    let start = ts(2023, 1, 1, 0, 0, 0);
    let end = ts(2023, 1, 3, 0, 0, 0);
    let weekly_hours = hours(40);

    assert_eq!(db.calculate_overtime(weekly_hours, (start, end)), hours(0));
}

#[test]
fn test_overtime_single_entry_worked_over_midnight_and_a_wohle_year() {
    let db = Database {
        rows: vec![
            entry(ts(2022, 1, 2, 8, 0, 0), ts(2023, 1, 1, 8, 0, 0)),
            entry(ts(2023, 1, 2, 23, 0, 0), ts(2023, 1, 3, 1, 15, 0)),
        ],
        special_days: vec![],
    };
    let start = ts(2023, 1, 1, 0, 0, 0);
    let end = ts(2023, 1, 3, 0, 0, 0);
    let weekly_hours = hours(40);

    assert_eq!(db.calculate_overtime(weekly_hours, (start, end)), hours(1));
}

#[test]
fn test_overtime_special_day() {
    let db = Database {
        rows: vec![entry(ts(2023, 1, 1, 0, 0, 0), ts(2023, 1, 1, 1, 0, 0))],
        special_days: vec![SpecialDayEntry {
            day: civil_day_number(2023, 1, 2),
            day_type: SpecialDayType::Vacation,
        }],
    };
    let start = ts(2023, 1, 1, 0, 0, 0);
    let end = ts(2023, 1, 3, 0, 0, 0);
    let weekly_hours = hours(40);

    assert_eq!(db.calculate_overtime(weekly_hours, (start, end)), hours(1));
}

#[test]
fn test_overtime_special_day_sunday() {
    let db = Database {
        rows: vec![entry(ts(2023, 1, 1, 0, 0, 0), ts(2023, 1, 1, 1, 0, 0))],
        special_days: vec![
            SpecialDayEntry { day: civil_day_number(2023, 1, 1), day_type: SpecialDayType::Vacation },
            SpecialDayEntry { day: civil_day_number(2023, 1, 2), day_type: SpecialDayType::Vacation },
        ],
    };
    let start = ts(2023, 1, 1, 0, 0, 0);
    let end = ts(2023, 1, 3, 0, 0, 0);
    let weekly_hours = hours(40);

    assert_eq!(db.calculate_overtime(weekly_hours, (start, end)), hours(1));
}

#[test]
fn test_overtime_special_day_out_range() {
    let db = Database {
        rows: vec![entry(ts(2023, 1, 1, 0, 0, 0), ts(2023, 1, 1, 1, 0, 0))],
        special_days: vec![
            SpecialDayEntry { day: civil_day_number(2022, 12, 20), day_type: SpecialDayType::Vacation },
            SpecialDayEntry { day: civil_day_number(2023, 1, 2), day_type: SpecialDayType::Vacation },
            SpecialDayEntry { day: civil_day_number(2023, 1, 3), day_type: SpecialDayType::Vacation },
        ],
    };
    let start = ts(2023, 1, 1, 0, 0, 0);
    let end = ts(2023, 1, 3, 0, 0, 0);
    let weekly_hours = hours(40);

    assert_eq!(db.calculate_overtime(weekly_hours, (start, end)), hours(1));
}

#[test]
fn test_overtime_special_day_credit_matches_plain_case() {
    let plain = Database { rows: vec![], special_days: vec![] };
    let with_vacation = Database {
        rows: vec![],
        special_days: vec![SpecialDayEntry {
            day: civil_day_number(2023, 5, 3),
            day_type: SpecialDayType::Vacation,
        }],
    };
    let start = ts(2023, 5, 2, 0, 0, 0);
    let end = ts(2023, 5, 5, 0, 0, 0);
    let weekly_hours = hours(40);

    let base = plain.calculate_overtime(weekly_hours, (start, end));
    let credited = with_vacation.calculate_overtime(weekly_hours, (start, end));
    assert_eq!(credited, base + weekly_hours / 5);
}
