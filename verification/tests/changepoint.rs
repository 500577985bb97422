use augurs::changepoint::{DefaultArgpcpDetector, Detector};
use chrono::Datelike;
use plentra::calendar::{add_days, Date};
use plentra::changepoint::{changepoint_result, series_long_enough, MIN_SERIES_LEN};

fn today() -> Date {
    let t = chrono::Utc::now().date_naive();
    Date::from_ymd_opt(t.year(), t.month(), t.day()).unwrap()
}

/// The dates of a daily series of `n` values ending today.
fn dates_ending_today(n: usize) -> Vec<Date> {
    let t = today();
    (0..n).map(|i| add_days(t, -((n - 1 - i) as i64)).unwrap()).collect()
}

#[test]
fn test_changepoint_empty_on_short_series() {
    let short = vec![1.0f64; 5];
    let dates = dates_ending_today(5);
    // The detector is never consulted for a short series.
    let result = changepoint_result(short.len(), &vec![0, 2, 4], &dates, today());
    assert!(!result.alert);
    assert!(result.changepoints.is_empty());
}

#[test]
fn test_changepoint_stable_series_no_alert() {
    let stable: Vec<f64> = vec![50.0; 90];
    let dates = dates_ending_today(90);
    let mut detector = DefaultArgpcpDetector::builder().build();
    let detected = detector.detect_changepoints(&stable);
    let result = changepoint_result(stable.len(), &detected, &dates, today());
    assert!(!result.alert);
}

#[test]
fn minimum_series_length() {
    assert_eq!(MIN_SERIES_LEN, 20);
    assert!(!series_long_enough(19));
    assert!(series_long_enough(20));
}

#[test]
fn recent_break_raises_an_alert() {
    let t = Date::from_ymd_opt(2026, 3, 28).unwrap();
    let dates: Vec<Date> = (0..30).map(|i| add_days(t, -(29 - i as i64)).unwrap()).collect();
    // Index 0 and out-of-range indices are dropped; the latest break is index 25 (2026-03-24).
    let r = changepoint_result(30, &vec![0, 10, 25, 30, 41], &dates, t);
    assert_eq!(r.changepoints, vec![10, 25]);
    assert_eq!(r.latest_break, Some(25));
    assert!(r.alert);
    assert_eq!(
        r.alert_message.as_deref(),
        Some("Structural break detected on 24 Mar 2026. Historical correlations may not hold — model recalibration recommended.")
    );
}

#[test]
fn old_break_raises_no_alert() {
    let t = Date::from_ymd_opt(2026, 3, 28).unwrap();
    let dates: Vec<Date> = (0..30).map(|i| add_days(t, -(29 - i as i64)).unwrap()).collect();
    // Index 14 is 2026-03-13, fifteen days before today.
    let r = changepoint_result(30, &vec![14], &dates, t);
    assert_eq!(r.latest_break, Some(14));
    assert!(!r.alert);
    assert!(r.alert_message.is_none());
    // Index 15 is exactly fourteen days back: still an alert.
    let r = changepoint_result(30, &vec![15], &dates, t);
    assert!(r.alert);
}

#[test]
fn break_without_a_date_raises_no_alert() {
    let t = Date::from_ymd_opt(2026, 3, 28).unwrap();
    let dates: Vec<Date> = vec![t; 5];
    let r = changepoint_result(30, &vec![12], &dates, t);
    assert_eq!(r.latest_break, Some(12));
    assert!(!r.alert);
}
