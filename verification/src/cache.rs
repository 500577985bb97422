//! In-memory cache of API responses with a per-entry lifetime.

use vstd::prelude::*;
use dashmap::DashMap;

verus! {

/// A JSON document, carried through unchanged.
#[verifier::external_type_specification]
#[verifier::external_body]
pub struct ExJsonValue(serde_json::Value);

/// serde_json's `Clone` for `Value`, which the derived `Clone` of a cache
/// entry calls; nothing is claimed of the copy.
pub assume_specification[ <serde_json::Value as Clone>::clone ](v: &serde_json::Value) -> serde_json::Value;

/// The concurrent map that holds the cache's entries.
#[verifier::external_type_specification]
#[verifier::external_body]
#[verifier::reject_recursive_types(K)]
#[verifier::reject_recursive_types(V)]
#[verifier::reject_recursive_types(S)]
pub struct ExDashMap<K, V, S>(DashMap<K, V, S>);

/// Nanoseconds per second.
pub const NANOS_PER_SEC: u32 = 1_000_000_000;
/// Bound on the seconds of a representable instant.
pub const MAX_INSTANT_SECS: i64 = 8_300_000_000_000;
/// First second of chrono's first date, -262143-01-01 00:00:00 UTC.
pub const FIRST_UTC_SECOND: i64 = -8_334_601_228_800;
/// Last second of chrono's last date, 262142-12-31 23:59:59 UTC.
pub const LAST_UTC_SECOND: i64 = 8_210_266_876_799;

/// A UTC instant: whole seconds since the Unix epoch and the nanoseconds after them.
#[derive(Clone, Copy, Debug, PartialEq, Eq, Structural)]
pub struct UtcInstant {
    pub secs: i64,
    pub nanos: u32,
}

impl UtcInstant {
    pub open spec fn valid(self) -> bool {
        -MAX_INSTANT_SECS <= self.secs <= MAX_INSTANT_SECS && self.nanos < NANOS_PER_SEC
    }

    /// Nanoseconds since the epoch.
    pub open spec fn total_nanos(self) -> int {
        self.secs * 1_000_000_000 + self.nanos
    }
}

/// Whole seconds from `since` to `now`, truncated toward zero.
pub open spec fn elapsed_seconds(now: UtcInstant, since: UtcInstant) -> int {
    let d = now.total_nanos() - since.total_nanos();
    if d >= 0 { d / 1_000_000_000 } else { -((-d) / 1_000_000_000) }
}

/// The current time (chrono's `Utc::now`).
///
/// Claims only that the instant lies after the epoch (`Utc::now` panics on a
/// clock set before it) and no later than chrono's last representable second
/// (it unwraps `DateTime::from_timestamp`); the value itself depends on the
/// clock and is left free.
#[verifier::external_body]
pub(crate) fn utc_now() -> (r: UtcInstant)
    ensures
        r.valid(),
        0 <= r.secs <= LAST_UTC_SECOND,
{
    let now = chrono::Utc::now();
    UtcInstant { secs: now.timestamp(), nanos: now.timestamp_subsec_nanos() }
}

/// A cached response with the instant it was fetched and its lifetime.
#[derive(Clone)]
pub struct CachedEntry {
    pub data: serde_json::Value,
    pub fetched_at: UtcInstant,
    pub ttl_seconds: u64,
}

impl CachedEntry {
    /// More whole seconds than the lifetime (read as a signed number) have passed.
    pub open spec fn expired_at(self, now: UtcInstant) -> bool {
        elapsed_seconds(now, self.fetched_at) > (self.ttl_seconds as i64) as int
    }

    /// Whether the entry has outlived its lifetime at instant `now`.
    pub fn is_expired_at(&self, now: UtcInstant) -> (r: bool)
        requires
            now.valid(),
            self.fetched_at.valid(),
        ensures
            r == self.expired_at(now),
    {
        let mut secs: i64 = now.secs - self.fetched_at.secs;
        let mut nanos: i64 = now.nanos as i64 - self.fetched_at.nanos as i64;
        if nanos < 0 {
            secs = secs - 1;
            nanos = nanos + 1_000_000_000;
        }
        let elapsed: i64 = if secs < 0 && nanos > 0 { secs + 1 } else { secs };
        proof {
            let d = now.total_nanos() - self.fetched_at.total_nanos();
            assert(d == secs * 1_000_000_000 + nanos);
            if d >= 0 {
                assert(secs >= 0);
                assert(d / 1_000_000_000 == secs) by (nonlinear_arith)
                    requires
                        d == secs * 1_000_000_000 + nanos,
                        0 <= nanos < 1_000_000_000,
                ;
            } else {
                assert(-d == (-secs - 1) * 1_000_000_000 + (1_000_000_000 - nanos) || nanos == 0);
                if nanos == 0 {
                    assert((-d) / 1_000_000_000 == -secs) by (nonlinear_arith)
                        requires
                            -d == (-secs) * 1_000_000_000,
                    ;
                } else {
                    assert((-d) / 1_000_000_000 == -secs - 1) by (nonlinear_arith)
                        requires
                            -d == (-secs - 1) * 1_000_000_000 + (1_000_000_000 - nanos),
                            0 < 1_000_000_000 - nanos < 1_000_000_000,
                    ;
                }
            }
        }
        let ttl = #[verifier::truncate] (self.ttl_seconds as i64);
        elapsed > ttl
    }

    /// Whether the entry has outlived its lifetime now.
    pub fn is_expired(&self) -> (r: bool)
        requires
            self.fetched_at.valid(),
        ensures
            exists|now: UtcInstant| now.valid() && now.secs >= 0 && r == self.expired_at(now),
    {
        let now = utc_now();
        self.is_expired_at(now)
    }
}

/// An entry is fresh at the instant it was fetched, unless its lifetime
/// reads as negative.
pub proof fn law_fresh_when_fetched(e: CachedEntry)
    requires
        e.fetched_at.valid(),
        (e.ttl_seconds as i64) >= 0,
    ensures
        !e.expired_at(e.fetched_at),
{
}

/// Once an entry has expired it stays expired at every later instant.
pub proof fn law_expiry_is_permanent(e: CachedEntry, t1: UtcInstant, t2: UtcInstant)
    requires
        e.expired_at(t1),
        t1.total_nanos() <= t2.total_nanos(),
    ensures
        e.expired_at(t2),
{
    let f = e.fetched_at.total_nanos();
    let d1 = t1.total_nanos() - f;
    let d2 = t2.total_nanos() - f;
    assert(d1 <= d2);
    if d1 >= 0 {
        assert(d1 / 1_000_000_000 <= d2 / 1_000_000_000) by (nonlinear_arith)
            requires
                0 <= d1 <= d2,
        {
        }
    } else if d2 >= 0 {
        assert(-((-d1) / 1_000_000_000) <= 0) by (nonlinear_arith)
            requires
                d1 < 0,
        {
        }
        assert(0 <= d2 / 1_000_000_000) by (nonlinear_arith)
            requires
                0 <= d2,
        {
        }
    } else {
        assert((-d2) / 1_000_000_000 <= (-d1) / 1_000_000_000) by (nonlinear_arith)
            requires
                0 < -d2 <= -d1,
        {
        }
    }
}

/// Looks up a key in the map (dashmap's `DashMap::get`), copying the entry out.
///
/// Other threads may change the map at any time, so nothing is claimed of
/// what is found.
#[verifier::external_body]
fn store_lookup(store: &DashMap<String, CachedEntry>, key: &str) -> (r: Option<CachedEntry>)
{
    store.get(key).map(|e| e.value().clone())
}

/// Inserts or replaces an entry (dashmap's `DashMap::insert`).
///
/// Nothing is claimed of the map afterwards: it is shared with other threads.
#[verifier::external_body]
fn store_insert(store: &DashMap<String, CachedEntry>, key: String, entry: CachedEntry) {
    store.insert(key, entry);
}

/// Removes an entry if present (dashmap's `DashMap::remove`).
///
/// Nothing is claimed of the map afterwards: it is shared with other threads.
#[verifier::external_body]
fn store_remove(store: &DashMap<String, CachedEntry>, key: &str) {
    store.remove(key);
}

/// Removes every entry (dashmap's `DashMap::clear`).
///
/// Nothing is claimed of the map afterwards: it is shared with other threads.
#[verifier::external_body]
fn store_clear(store: &DashMap<String, CachedEntry>) {
    store.clear();
}

/// A new map (dashmap's `DashMap::new`).
///
/// Nothing is claimed of its contents: the map is only ever read through
/// `store_lookup`, which claims nothing either.
#[verifier::external_body]
fn store_new() -> (r: DashMap<String, CachedEntry>) {
    DashMap::new()
}

/// Entries fetched from the map must carry a representable fetch instant.
pub open spec fn entry_ok(e: Option<CachedEntry>) -> bool {
    e matches Some(x) ==> x.fetched_at.valid()
}

/// Shared response cache keyed by route.
pub struct Cache {
    store: DashMap<String, CachedEntry>,
}

/// A looked-up entry, dropped when its fetch instant is not a representable
/// one or when it has expired at `now`.
pub fn fresh_entry(found: Option<CachedEntry>, now: UtcInstant) -> (r: Option<CachedEntry>)
    requires
        now.valid(),
    ensures
        !entry_ok(found) ==> r is None,
        r == (match found {
            Some(e) => if !e.fetched_at.valid() || e.expired_at(now) { None } else { Some(e) },
            None => None,
        }),
{
    match found {
        Some(e) => {
            let ok = e.fetched_at.secs >= -MAX_INSTANT_SECS && e.fetched_at.secs <= MAX_INSTANT_SECS
                && e.fetched_at.nanos < NANOS_PER_SEC;
            if !ok || e.is_expired_at(now) {
                None
            } else {
                Some(e)
            }
        }
        None => None,
    }
}

/// A new entry holding `data`, fetched now and living `ttl` seconds.
pub fn new_entry(data: serde_json::Value, ttl: u64) -> (e: CachedEntry)
    ensures
        e.data == data,
        e.ttl_seconds == ttl,
        e.fetched_at.valid(),
        0 <= e.fetched_at.secs <= LAST_UTC_SECOND,
{
    CachedEntry { data, fetched_at: utc_now(), ttl_seconds: ttl }
}

impl Cache {
    /// An empty cache. The map's contents change through `&self` from any
    /// thread, so no spec value stands for them and emptiness is not stated.
    pub fn new() -> Self {
        Cache { store: store_new() }
    }

    /// The entry for `key` unless it has expired; what is found depends on
    /// concurrent writers, and a found entry is returned only when it was
    /// fresh at the instant of the check.
    pub fn get(&self, key: &str) -> (r: Option<CachedEntry>)
        ensures
            r matches Some(e) ==> e.fetched_at.valid()
                && exists|now: UtcInstant| now.valid() && now.secs >= 0 && !e.expired_at(now),
    {
        let found = store_lookup(&self.store, key);
        let now = utc_now();
        fresh_entry(found, now)
    }

    /// The entry for `key` whatever its age: what the shared map holds at the
    /// moment of the lookup, which concurrent writers decide.
    pub fn get_stale(&self, key: &str) -> Option<CachedEntry> {
        store_lookup(&self.store, key)
    }

    /// Stores `data` under `key`, fetched now, living `ttl` seconds.
    pub fn set(&self, key: String, data: serde_json::Value, ttl: u64) {
        let entry = new_entry(data, ttl);
        store_insert(&self.store, key, entry);
    }

    /// Drops the entry of one key.
    pub fn invalidate(&self, key: &str) {
        store_remove(&self.store, key);
    }

    /// Drops every entry.
    pub fn clear(&self) {
        store_clear(&self.store);
    }
}

} // verus!
