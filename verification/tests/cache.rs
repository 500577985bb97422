use plentra::cache::{fresh_entry, new_entry, Cache, CachedEntry, UtcInstant};

fn entry(secs: i64, nanos: u32, ttl: u64) -> CachedEntry {
    CachedEntry { data: serde_json::Value::from(1), fetched_at: UtcInstant { secs, nanos }, ttl_seconds: ttl }
}

#[test]
fn expiry_counts_whole_seconds() {
    let e = entry(1_000, 500_000_000, 60);
    assert!(!e.is_expired_at(UtcInstant { secs: 1_000, nanos: 500_000_000 }));
    assert!(!e.is_expired_at(UtcInstant { secs: 1_061, nanos: 499_999_999 }));
    assert!(!e.is_expired_at(UtcInstant { secs: 1_060, nanos: 500_000_000 }));
    assert!(e.is_expired_at(UtcInstant { secs: 1_061, nanos: 500_000_000 }));
    assert!(e.is_expired_at(UtcInstant { secs: 1_062, nanos: 0 }));
    // An instant before the fetch never expires a non-negative lifetime.
    assert!(!e.is_expired_at(UtcInstant { secs: 10, nanos: 0 }));
}

#[test]
fn zero_lifetime_expires_after_a_second() {
    let e = entry(50, 0, 0);
    assert!(!e.is_expired_at(UtcInstant { secs: 50, nanos: 999_999_999 }));
    assert!(e.is_expired_at(UtcInstant { secs: 51, nanos: 0 }));
}

#[test]
fn fresh_entry_drops_expired() {
    let now = UtcInstant { secs: 2_000, nanos: 0 };
    assert!(fresh_entry(Some(entry(1_950, 0, 60)), now).is_some());
    assert!(fresh_entry(Some(entry(1_900, 0, 60)), now).is_none());
    assert!(fresh_entry(None, now).is_none());
}

#[test]
fn new_entry_is_fresh_now() {
    let t = chrono::Utc::now();
    let now = UtcInstant { secs: t.timestamp(), nanos: t.timestamp_subsec_nanos() };
    let e = CachedEntry { data: serde_json::Value::Null, fetched_at: now, ttl_seconds: 900 };
    assert!(!e.is_expired());
    let old = entry(now.secs - 1_000, 0, 900);
    assert!(old.is_expired());
}

#[test]
fn cache_set_get_invalidate_clear() {
    let c = Cache::new();
    assert!(c.get("fuels").is_none());
    c.set("fuels".to_string(), serde_json::Value::from("payload"), 900);
    c.set("spreads".to_string(), serde_json::Value::from(2), 900);
    assert_eq!(c.get("fuels").map(|e| e.data), Some(serde_json::Value::from("payload")));
    assert_eq!(c.get("fuels").map(|e| e.ttl_seconds), Some(900));
    c.invalidate("fuels");
    assert!(c.get("fuels").is_none());
    assert!(c.get_stale("fuels").is_none());
    assert!(c.get("spreads").is_some());
    c.clear();
    assert!(c.get_stale("spreads").is_none());
}

#[test]
fn stale_entries_are_kept_for_get_stale() {
    let c = Cache::new();
    // A lifetime past i64::MAX reads as negative, so the entry is expired at once.
    c.set("summary".to_string(), serde_json::Value::from(true), u64::MAX);
    assert!(c.get("summary").is_none());
    assert_eq!(c.get_stale("summary").map(|e| e.data), Some(serde_json::Value::from(true)));
}

#[test]
fn new_entry_keeps_data_and_lifetime() {
    let e = new_entry(serde_json::Value::from("x"), 900);
    assert_eq!(e.data, serde_json::Value::from("x"));
    assert_eq!(e.ttl_seconds, 900);
    assert!(e.fetched_at.secs > 1_600_000_000);
    assert!(e.fetched_at.nanos < 1_000_000_000);
}

#[test]
fn fresh_entry_drops_unrepresentable_fetch_times() {
    let now = UtcInstant { secs: 2_000, nanos: 0 };
    assert!(fresh_entry(Some(entry(i64::MAX, 0, 60)), now).is_none());
    assert!(fresh_entry(Some(entry(1_990, 1_000_000_000, 60)), now).is_none());
}

#[test]
fn set_then_get_gives_the_stored_data() {
    let c = Cache::new();
    c.set("k".to_string(), serde_json::Value::from(7), 60);
    let e = c.get("k").unwrap();
    assert_eq!(e.data, serde_json::Value::from(7));
    assert_eq!(e.ttl_seconds, 60);
    assert!(c.get("other").is_none());
}
