use chrono::TimeZone;
use plentra::cache::UtcInstant;
use plentra::scheduler::{refreshed_cache_keys, seconds_until_next_run, RUN_SECOND_OF_DAY};

fn at(h: u32, m: u32, s: u32, nanos: u32) -> UtcInstant {
    let t = chrono::Utc.with_ymd_and_hms(2026, 3, 28, h, m, s).unwrap();
    UtcInstant { secs: t.timestamp(), nanos }
}

#[test]
fn waits_until_half_past_seven() {
    assert_eq!(RUN_SECOND_OF_DAY, 19 * 3600 + 30 * 60);
    assert_eq!(seconds_until_next_run(at(19, 0, 0, 0)), 1800);
    assert_eq!(seconds_until_next_run(at(0, 0, 0, 0)), 70_200);
    assert_eq!(seconds_until_next_run(at(19, 29, 59, 500_000_000)), 0);
}

#[test]
fn after_the_run_waits_for_tomorrow() {
    assert_eq!(seconds_until_next_run(at(19, 30, 0, 0)), 86_400);
    assert_eq!(seconds_until_next_run(at(20, 30, 0, 0)), 82_800);
    assert_eq!(seconds_until_next_run(at(23, 59, 59, 1)), 70_200);
}

#[test]
fn keys_dropped_after_refresh() {
    assert_eq!(refreshed_cache_keys(), vec!["fuels", "summary", "forecast", "spreads"]);
}

use plentra::scheduler::settlement_time;

#[test]
fn settlements_stamped_at_half_past_five() {
    let expected = chrono::Utc.with_ymd_and_hms(2026, 3, 28, 17, 30, 0).unwrap().timestamp();
    assert_eq!(settlement_time(at(19, 31, 0, 0)), expected);
    assert_eq!(settlement_time(at(0, 0, 0, 0)), expected);
}
