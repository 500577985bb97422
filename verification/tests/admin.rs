use plentra::admin::{
    wall_seconds_of,
    backfill_day_offsets, backfill_days, backfill_source, decide_backfill, decide_refresh,
    BackfillDecision, BackfillParams, BackfillSource, RefreshAction, RefreshParams,
};

#[test]
fn test_curtailment_mw_to_mwh_conversion() {
    let mw = 100.0f64;
    let mwh = mw * 0.25;
    assert!((mwh - 25.0).abs() < 0.001);
}

#[test]
fn test_backfill_days_cap() {
    let requested = 9999i64;
    let capped = backfill_days(Some(requested));
    assert_eq!(capped, 730);
}

#[test]
fn backfill_days_default_and_passthrough() {
    assert_eq!(backfill_days(None), 30);
    assert_eq!(backfill_days(Some(90)), 90);
    assert_eq!(backfill_days(Some(730)), 730);
    assert_eq!(backfill_days(Some(731)), 730);
    assert_eq!(backfill_days(Some(-5)), -5);
}

#[test]
fn backfill_source_names() {
    assert_eq!(backfill_source(&None), BackfillSource::Databento);
    assert_eq!(backfill_source(&Some("curtailment".to_string())), BackfillSource::Curtailment);
    assert_eq!(backfill_source(&Some("ohlcv_status".to_string())), BackfillSource::OhlcvStatus);
    assert_eq!(backfill_source(&Some("nope".to_string())), BackfillSource::Unknown);
}

#[test]
fn backfill_checks_token_before_database() {
    let p = BackfillParams { token: "bad".to_string(), source: None, days: None };
    assert_eq!(decide_backfill(&p, "change-me", false), BackfillDecision::Unauthorized);
    let p = BackfillParams { token: "change-me".to_string(), source: None, days: None };
    assert_eq!(decide_backfill(&p, "change-me", false), BackfillDecision::NoDatabase);
    let p = BackfillParams {
        token: "change-me".to_string(),
        source: Some("reserves".to_string()),
        days: Some(5000),
    };
    assert_eq!(
        decide_backfill(&p, "change-me", true),
        BackfillDecision::Run(BackfillSource::Reserves, 730)
    );
}

#[test]
fn backfill_offsets_count_down() {
    assert_eq!(backfill_day_offsets(3), vec![2, 1, 0]);
    assert!(backfill_day_offsets(0).is_empty());
    assert!(backfill_day_offsets(-2).is_empty());
}

#[test]
fn refresh_routes() {
    let p = RefreshParams { token: "x".to_string(), route: None };
    assert!(matches!(decide_refresh(&p, "y"), RefreshAction::Unauthorized));
    let p = RefreshParams { token: "y".to_string(), route: None };
    assert!(matches!(decide_refresh(&p, "y"), RefreshAction::ClearAll));
    let p = RefreshParams { token: "y".to_string(), route: Some("all".to_string()) };
    assert!(matches!(decide_refresh(&p, "y"), RefreshAction::ClearAll));
    let p = RefreshParams { token: "y".to_string(), route: Some("fuels".to_string()) };
    match decide_refresh(&p, "y") {
        RefreshAction::Invalidate(k) => assert_eq!(k, "fuels"),
        _ => panic!("expected a single-route invalidation"),
    }
}

use chrono::{TimeZone, Timelike};
use plentra::admin::parse_pse_dtime_utc;

#[test]
fn test_pse_timestamp_with_timezone() {
    let raw = "2024-06-15 14:30:00";
    let secs = parse_pse_dtime_utc(raw).unwrap();
    let utc_dt = chrono::DateTime::from_timestamp(secs, 0).unwrap();
    // June = CEST (UTC+2), so 14:30 Warsaw = 12:30 UTC
    assert_eq!(utc_dt.hour(), 12);
    assert_eq!(utc_dt.minute(), 30);
}

#[test]
fn winter_pse_timestamps_are_one_hour_ahead() {
    let secs = parse_pse_dtime_utc("2026-01-10 00:15:00").unwrap();
    assert_eq!(secs, chrono::Utc.with_ymd_and_hms(2026, 1, 9, 23, 15, 0).unwrap().timestamp());
}

#[test]
fn unparsable_or_skipped_pse_timestamps() {
    assert_eq!(parse_pse_dtime_utc("2026-03-01"), None);
    assert_eq!(parse_pse_dtime_utc("2026-03-01 25:00:00"), None);
    // 02:30 on 29 March 2026 does not exist in Warsaw (clocks jump to 03:00).
    assert_eq!(parse_pse_dtime_utc("2026-03-29 02:30:00"), None);
    // 02:30 on 25 October 2026 happens twice.
    assert_eq!(parse_pse_dtime_utc("2026-10-25 02:30:00"), None);
}

#[test]
fn test_pse_timestamp_parsing() {
    let raw = "2024-09-24 00:15:00";
    let parsed = wall_seconds_of(raw);
    assert!(parsed.is_some());
    let ts = chrono::DateTime::from_timestamp(parsed.unwrap(), 0).unwrap();
    assert_eq!(ts.hour(), 0);
    assert_eq!(ts.minute(), 15);
}

#[test]
fn wall_seconds_reject_bad_text() {
    assert_eq!(wall_seconds_of("2024-09-24"), None);
    assert_eq!(wall_seconds_of("2024-09-24 25:00:00"), None);
    assert_eq!(wall_seconds_of("1970-01-02 00:00:01"), Some(86_401));
}
