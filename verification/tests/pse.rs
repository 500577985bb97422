use chrono::TimeZone;
use plentra::calendar::Date;
use plentra::pse::{
    date_days_ago, day_filter, day_filters, day_filters_between, days_ago_text, hour_of_dtime, local_date_text,
    local_hour, month_key, thirteen_months_ago, today_warsaw, utc_date, walk_is_defined,
};

fn d(y: i32, m: u32, day: u32) -> Date {
    Date::from_ymd_opt(y, m, day).unwrap()
}

#[test]
fn single_day_filter() {
    assert_eq!(day_filter(d(2026, 3, 1)), "business_date ge '2026-03-01' and business_date le '2026-03-01'");
}

#[test]
fn filters_step_through_the_range() {
    let v = day_filters(d(2026, 2, 26), d(2026, 3, 3), 2);
    assert_eq!(
        v,
        vec![
            day_filter(d(2026, 2, 26)),
            day_filter(d(2026, 2, 28)),
            day_filter(d(2026, 3, 2)),
        ]
    );
    assert_eq!(day_filters(d(2026, 3, 3), d(2026, 3, 3), 1), vec![day_filter(d(2026, 3, 3))]);
    assert!(day_filters(d(2026, 3, 4), d(2026, 3, 3), 1).is_empty());
}

#[test]
fn filters_between_text_dates() {
    let v = day_filters_between("2026-03-01", "2026-03-03", 1).unwrap();
    assert_eq!(v.len(), 3);
    assert_eq!(v[2], "business_date ge '2026-03-03' and business_date le '2026-03-03'");
    assert_eq!(day_filters_between("2026-13-01", "2026-03-03", 1), Some(vec![]));
    assert_eq!(day_filters_between("2026-03-01", "soon", 1), Some(vec![]));
    // A non-positive step never leaves the first day.
    assert_eq!(day_filters_between("2026-03-01", "2026-03-03", 0), None);
    assert_eq!(day_filters_between("2026-03-04", "2026-03-03", 0), Some(vec![]));
}

#[test]
fn walk_definedness() {
    assert!(walk_is_defined(d(2026, 3, 1), d(2026, 3, 10), 3));
    assert!(!walk_is_defined(d(2026, 3, 1), d(2026, 3, 10), 0));
    assert!(walk_is_defined(d(2026, 3, 11), d(2026, 3, 10), -1));
    assert!(!walk_is_defined(d(262142, 12, 30), d(262142, 12, 31), 5));
}

#[test]
fn dates_are_read_with_chrono_rules() {
    let one = |s: &str| day_filters_between(s, s, 1).unwrap();
    assert_eq!(one("2026-03-28"), vec![day_filter(d(2026, 3, 28))]);
    assert_eq!(one("2026-3-8"), vec![day_filter(d(2026, 3, 8))]);
    assert!(one("2026-02-30").is_empty());
    assert!(one("28.03.2026").is_empty());
}

#[test]
fn godzina_is_one_based() {
    assert_eq!(local_hour(1), Some(0));
    assert_eq!(local_hour(24), Some(23));
    assert_eq!(local_hour(0), None);
    assert_eq!(local_hour(25), None);
}

#[test]
fn hour_of_quarter_hour_record() {
    assert_eq!(hour_of_dtime("2026-03-01 00:15:00"), 0);
    assert_eq!(hour_of_dtime("2026-03-01 23:45:00"), 23);
    assert_eq!(hour_of_dtime("2026-03-01 7"), 0);
    assert_eq!(hour_of_dtime("2026-03-01 +7:00:00"), 7);
    assert_eq!(hour_of_dtime("2026-03-01 xx:00:00"), 0);
    let raw = "2024-09-24 00:15:00";
    let parsed: u8 = raw.get(11..13).and_then(|h| h.parse().ok()).unwrap_or(0);
    assert_eq!(hour_of_dtime(raw), parsed);
}

#[test]
fn month_of_business_date() {
    assert_eq!(month_key("2026-03-01"), Some("2026-03"));
    assert_eq!(month_key("2026-03"), Some("2026-03"));
    assert_eq!(month_key("2026"), None);
}

#[test]
fn utc_dates_of_instants() {
    let ts = chrono::Utc.with_ymd_and_hms(2026, 3, 28, 23, 59, 59).unwrap().timestamp();
    assert_eq!(utc_date(ts), Some(d(2026, 3, 28)));
    assert_eq!(utc_date(ts + 1), Some(d(2026, 3, 29)));
    assert_eq!(utc_date(0), Some(d(1970, 1, 1)));
    assert_eq!(utc_date(-1), Some(d(1969, 12, 31)));
}

#[test]
fn days_ago_from_an_instant() {
    let ts = chrono::Utc.with_ymd_and_hms(2026, 3, 28, 10, 0, 0).unwrap().timestamp();
    assert_eq!(days_ago_text(ts, 3).as_deref(), Some("2026-03-25"));
    assert_eq!(days_ago_text(ts, 0).as_deref(), Some("2026-03-28"));
    assert_eq!(days_ago_text(ts, -4).as_deref(), Some("2026-04-01"));
    assert_eq!(days_ago_text(ts, 395).as_deref(), Some("2025-02-26"));
    assert_eq!(days_ago_text(ts, i64::MIN), None);
    assert_eq!(days_ago_text(ts, 1_000_000_000), None);
}

#[test]
fn local_dates_shift_by_the_offset() {
    // 23:30 UTC on 28 March is already the 29th two hours east.
    let ts = chrono::Utc.with_ymd_and_hms(2026, 3, 28, 23, 30, 0).unwrap().timestamp();
    assert_eq!(local_date_text(ts, 0).as_deref(), Some("2026-03-28"));
    assert_eq!(local_date_text(ts, 7200).as_deref(), Some("2026-03-29"));
    assert_eq!(local_date_text(ts, -86_400).as_deref(), Some("2026-03-27"));
}

#[test]
fn clock_dates_agree_with_chrono() {
    let warsaw = chrono::Utc::now().with_timezone(&chrono_tz::Europe::Warsaw).date_naive().to_string();
    let ours = today_warsaw().unwrap();
    let again = chrono::Utc::now().with_timezone(&chrono_tz::Europe::Warsaw).date_naive().to_string();
    assert!(ours == warsaw || ours == again);
    let ago = (chrono::Utc::now() - chrono::Duration::days(7)).date_naive().to_string();
    let ours = date_days_ago(7).unwrap();
    let ago2 = (chrono::Utc::now() - chrono::Duration::days(7)).date_naive().to_string();
    assert!(ours == ago || ours == ago2);
    let back = (chrono::Utc::now().date_naive() - chrono::Duration::days(395)).to_string();
    let ours = thirteen_months_ago().unwrap();
    let back2 = (chrono::Utc::now().date_naive() - chrono::Duration::days(395)).to_string();
    assert!(ours == back || ours == back2);
}

use plentra::pse::day_filter_days_ago;

#[test]
fn backfill_day_filters() {
    let ts = chrono::Utc.with_ymd_and_hms(2026, 3, 28, 10, 0, 0).unwrap().timestamp();
    assert_eq!(
        day_filter_days_ago(ts, 2).as_deref(),
        Some("business_date ge '2026-03-26' and business_date le '2026-03-26'")
    );
    assert_eq!(day_filter_days_ago(ts, i64::MAX), None);
}

use plentra::pse::energy_price_instant;

fn utc(y: i32, m: u32, day: u32, h: u32) -> i64 {
    chrono::Utc.with_ymd_and_hms(y, m, day, h, 0, 0).unwrap().timestamp()
}

#[test]
fn energy_price_hours_in_utc() {
    // godzina 1 is midnight in Warsaw: 23:00 UTC the day before in winter.
    assert_eq!(energy_price_instant("2026-03-28", 1), Ok(Some(utc(2026, 3, 27, 23))));
    assert_eq!(energy_price_instant("2026-06-15", 24), Ok(Some(utc(2026, 6, 15, 21))));
    // 02:00 is skipped on the spring change; the repeated 02:00 in autumn takes the earlier instant.
    assert_eq!(energy_price_instant("2026-03-29", 3), Ok(None));
    assert_eq!(energy_price_instant("2026-10-25", 3), Ok(Some(utc(2026, 10, 25, 0))));
    assert_eq!(energy_price_instant("2026-03-28", 0), Ok(None));
    assert_eq!(energy_price_instant("2026-03-28", 25), Ok(None));
    assert_eq!(energy_price_instant("28/03/2026", 1), Err(()));
}
