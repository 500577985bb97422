use chrono::TimeZone;
use plentra::ordering::{hourly_keep, settlement_keep, sort_then_dedup, stable_order, utc_day_of, SettlementKey};

fn key(ts: chrono::DateTime<chrono::Utc>, name: &str) -> SettlementKey {
    SettlementKey { secs: ts.timestamp(), nanos: ts.timestamp_subsec_nanos(), instrument: name.to_string() }
}

#[test]
fn test_dedup_by_day_and_instrument() {
    let ts1 = chrono::Utc.with_ymd_and_hms(2026, 3, 28, 10, 0, 0).unwrap();
    let ts2 = chrono::Utc.with_ymd_and_hms(2026, 3, 28, 17, 30, 0).unwrap();
    let ts3 = chrono::Utc.with_ymd_and_hms(2026, 3, 29, 17, 30, 0).unwrap();
    let v: Vec<(chrono::DateTime<chrono::Utc>, &str, f64, &str)> = vec![
        (ts1, "TTF", 54.0, "EUR/MWh"),
        (ts2, "TTF", 54.5, "EUR/MWh"),
        (ts3, "TTF", 55.0, "EUR/MWh"),
    ];
    let keys: Vec<SettlementKey> = v.iter().map(|(ts, name, _, _)| key(*ts, name)).collect();
    let kept: Vec<(chrono::DateTime<chrono::Utc>, &str, f64, &str)> =
        settlement_keep(&keys).into_iter().map(|i| v[i]).collect();
    assert_eq!(kept.len(), 2);
    assert!((kept[0].2 - 54.0).abs() < 0.001);
    assert!((kept[1].2 - 55.0).abs() < 0.001);
}

#[test]
fn settlements_sort_by_time_then_name() {
    let ts1 = chrono::Utc.with_ymd_and_hms(2026, 3, 28, 19, 0, 0).unwrap();
    let ts0 = chrono::Utc.with_ymd_and_hms(2026, 3, 27, 19, 0, 0).unwrap();
    let keys = vec![key(ts1, "TTF"), key(ts1, "EUA"), key(ts0, "TTF"), key(ts1, "TTF")];
    // Oldest first, EUA before TTF at the same instant; the second TTF of the 28th is dropped.
    assert_eq!(settlement_keep(&keys), vec![2, 1, 0]);
}

#[test]
fn same_day_different_instruments_both_kept() {
    let a = chrono::Utc.with_ymd_and_hms(2026, 3, 28, 10, 0, 0).unwrap();
    let b = chrono::Utc.with_ymd_and_hms(2026, 3, 28, 11, 0, 0).unwrap();
    let keys = vec![key(a, "TTF"), key(b, "EUA")];
    assert_eq!(settlement_keep(&keys), vec![0, 1]);
}

#[test]
fn utc_days_round_down() {
    assert_eq!(utc_day_of(0), 0);
    assert_eq!(utc_day_of(86_399), 0);
    assert_eq!(utc_day_of(86_400), 1);
    assert_eq!(utc_day_of(-1), -1);
    assert_eq!(utc_day_of(-86_400), -1);
    assert_eq!(utc_day_of(-86_401), -2);
}

#[test]
fn hourly_readings_keep_first_of_each_hour() {
    assert_eq!(hourly_keep(&vec![3, 1, 3, 0, 1]), vec![3, 1, 0]);
    assert!(hourly_keep(&vec![]).is_empty());
}

#[test]
fn stable_order_keeps_ties_in_place() {
    let keys = vec![vec![2], vec![1, 5], vec![2], vec![1], vec![]];
    assert_eq!(stable_order(&keys), vec![4, 3, 1, 0, 2]);
}

#[test]
fn dedup_uses_buckets_of_neighbours() {
    let keys = vec![vec![3], vec![1], vec![2]];
    let buckets = vec![vec![7], vec![7], vec![8]];
    // Sorted: 1 (bucket 7), 2 (bucket 8), 3 (bucket 7): no two neighbours share a bucket.
    assert_eq!(sort_then_dedup(&keys, &buckets), vec![1, 2, 0]);
    let buckets = vec![vec![8], vec![7], vec![7]];
    assert_eq!(sort_then_dedup(&keys, &buckets), vec![1, 0]);
}
