use chrono::Datelike;
use plentra::calendar::{
    add_days, day_number_of, iso_string, leap_year, month_days, on_or_before, pred_opt, succ_opt, Date,
    MAX_YEAR, MIN_YEAR,
};

fn d(y: i32, m: u32, day: u32) -> Date {
    Date::from_ymd_opt(y, m, day).unwrap()
}

fn to_chrono(x: Date) -> chrono::NaiveDate {
    chrono::NaiveDate::from_ymd_opt(x.year, x.month, x.day).unwrap()
}

#[test]
fn from_ymd_opt_rejects_impossible_dates() {
    assert!(Date::from_ymd_opt(2026, 2, 29).is_none());
    assert!(Date::from_ymd_opt(2024, 2, 29).is_some());
    assert!(Date::from_ymd_opt(1900, 2, 29).is_none());
    assert!(Date::from_ymd_opt(2000, 2, 29).is_some());
    assert!(Date::from_ymd_opt(2026, 4, 31).is_none());
    assert!(Date::from_ymd_opt(2026, 13, 1).is_none());
    assert!(Date::from_ymd_opt(2026, 0, 1).is_none());
    assert!(Date::from_ymd_opt(2026, 1, 0).is_none());
    assert!(Date::from_ymd_opt(MAX_YEAR + 1, 1, 1).is_none());
    assert!(Date::from_ymd_opt(MIN_YEAR - 1, 12, 31).is_none());
}

#[test]
fn supported_range_matches_chrono() {
    assert_eq!(to_chrono(d(MIN_YEAR, 1, 1)), chrono::NaiveDate::MIN);
    assert_eq!(to_chrono(d(MAX_YEAR, 12, 31)), chrono::NaiveDate::MAX);
}

#[test]
fn leap_years_and_month_lengths() {
    assert!(leap_year(2024));
    assert!(!leap_year(2026));
    assert!(!leap_year(2100));
    assert!(leap_year(2000));
    assert!(leap_year(-4));
    assert_eq!(month_days(2024, 2), 29);
    assert_eq!(month_days(2026, 2), 28);
    assert_eq!(month_days(2026, 4), 30);
    assert_eq!(month_days(2026, 12), 31);
}

#[test]
fn stepping_days_matches_chrono() {
    let start = d(2026, 3, 28);
    for n in [-800i64, -366, -31, -1, 0, 1, 3, 4, 31, 365, 1000] {
        let ours = add_days(start, n).unwrap();
        let theirs = to_chrono(start) + chrono::Duration::days(n);
        assert_eq!(to_chrono(ours), theirs, "n = {}", n);
    }
}

#[test]
fn stepping_past_the_calendar_fails() {
    assert!(succ_opt(d(MAX_YEAR, 12, 31)).is_none());
    assert!(pred_opt(d(MIN_YEAR, 1, 1)).is_none());
    assert!(add_days(d(MAX_YEAR, 12, 30), 2).is_none());
    assert_eq!(add_days(d(MAX_YEAR, 12, 30), 1), Some(d(MAX_YEAR, 12, 31)));
    assert_eq!(succ_opt(d(2026, 12, 31)), Some(d(2027, 1, 1)));
    assert_eq!(pred_opt(d(2024, 3, 1)), Some(d(2024, 2, 29)));
}

#[test]
fn day_numbers_count_from_the_epoch() {
    assert_eq!(day_number_of(d(1970, 1, 1)), 0);
    assert_eq!(day_number_of(d(1969, 12, 31)), -1);
    for x in [d(2026, 3, 28), d(2000, 2, 29), d(1, 1, 1), d(-500, 7, 4), d(MAX_YEAR, 12, 31), d(MIN_YEAR, 1, 1)] {
        let epoch = chrono::NaiveDate::from_ymd_opt(1970, 1, 1).unwrap();
        assert_eq!(day_number_of(x), (to_chrono(x) - epoch).num_days());
    }
}

#[test]
fn iso_text_matches_chrono_display() {
    for x in [d(2026, 3, 8), d(999, 12, 1), d(10000, 1, 1), d(-1, 6, 30), d(0, 1, 1)] {
        assert_eq!(iso_string(x), to_chrono(x).to_string());
    }
}

#[test]
fn date_order() {
    assert!(on_or_before(d(2026, 3, 28), d(2026, 3, 28)));
    assert!(on_or_before(d(2025, 12, 31), d(2026, 1, 1)));
    assert!(!on_or_before(d(2026, 2, 1), d(2026, 1, 31)));
    assert_eq!(d(2026, 3, 28).month0(), 2);
    let t = to_chrono(d(2026, 3, 28));
    assert_eq!(d(2026, 3, 28).month0(), t.month0());
}
