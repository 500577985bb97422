//! Decisions of the admin endpoints: token check, backfill source and range,
//! and cache refresh.

use vstd::prelude::*;
use chrono::{Datelike, Timelike};
use crate::cache::{FIRST_UTC_SECOND, LAST_UTC_SECOND};
use crate::pse::{WallMapping, warsaw_mapping, warsaw_wall_mapping};
use crate::calendar::{Date, day_number, day_number_of};
use crate::text::{same_text};

verus! {

/// Query parameters of the backfill endpoint.
#[derive(Debug, Clone)]
pub struct BackfillParams {
    pub token: String,
    pub source: Option<String>,
    pub days: Option<i64>,
}

/// Query parameters of the cache-refresh endpoint.
#[derive(Debug, Clone)]
pub struct RefreshParams {
    pub token: String,
    pub route: Option<String>,
}

/// Longest backfill, in days.
pub const MAX_BACKFILL_DAYS: i64 = 730;
/// Backfill length when none is requested.
pub const DEFAULT_BACKFILL_DAYS: i64 = 30;

pub open spec fn capped_days(requested: Option<i64>) -> i64 {
    let d = match requested {
        Some(v) => v,
        None => DEFAULT_BACKFILL_DAYS,
    };
    if d <= MAX_BACKFILL_DAYS { d } else { MAX_BACKFILL_DAYS }
}

/// Requested backfill length, defaulting to 30 days and capped at 730.
pub fn backfill_days(requested: Option<i64>) -> (r: i64)
    ensures
        r == capped_days(requested),
{
    let d = match requested {
        Some(v) => v,
        None => DEFAULT_BACKFILL_DAYS,
    };
    if d <= MAX_BACKFILL_DAYS { d } else { MAX_BACKFILL_DAYS }
}

/// What a backfill request asks for.
#[derive(Clone, Copy, Debug, PartialEq, Eq, Structural)]
pub enum BackfillSource {
    Databento,
    Stooq,
    Curtailment,
    Reserves,
    DatabentoDebug,
    DatabentoOhlcv,
    RecalculateSpreads,
    OhlcvStatus,
    Unknown,
}

pub open spec fn source_of(name: Seq<char>) -> BackfillSource {
    if name == "databento"@ {
        BackfillSource::Databento
    } else if name == "stooq"@ {
        BackfillSource::Stooq
    } else if name == "curtailment"@ {
        BackfillSource::Curtailment
    } else if name == "reserves"@ {
        BackfillSource::Reserves
    } else if name == "databento_debug"@ {
        BackfillSource::DatabentoDebug
    } else if name == "databento_ohlcv"@ {
        BackfillSource::DatabentoOhlcv
    } else if name == "recalculate_spreads"@ {
        BackfillSource::RecalculateSpreads
    } else if name == "ohlcv_status"@ {
        BackfillSource::OhlcvStatus
    } else {
        BackfillSource::Unknown
    }
}

/// The name a request uses for each source (none for an unknown one).
pub open spec fn source_name(s: BackfillSource) -> Seq<char> {
    match s {
        BackfillSource::Databento => "databento"@,
        BackfillSource::Stooq => "stooq"@,
        BackfillSource::Curtailment => "curtailment"@,
        BackfillSource::Reserves => "reserves"@,
        BackfillSource::DatabentoDebug => "databento_debug"@,
        BackfillSource::DatabentoOhlcv => "databento_ohlcv"@,
        BackfillSource::RecalculateSpreads => "recalculate_spreads"@,
        BackfillSource::OhlcvStatus => "ohlcv_status"@,
        BackfillSource::Unknown => Seq::empty(),
    }
}

/// The names a backfill request may give.
pub open spec fn source_names() -> Seq<Seq<char>> {
    seq!["databento"@, "stooq"@, "curtailment"@, "reserves"@, "databento_debug"@, "databento_ohlcv"@,
        "recalculate_spreads"@, "ohlcv_status"@]
}

/// Every known source is reached by its own name and by no other: a known
/// source read from a name has that name, two names giving the same known
/// source are the same name, and only names outside the list are unknown.
pub proof fn law_sources_one_to_one(name: Seq<char>, other: Seq<char>, s: BackfillSource)
    ensures
        source_of(name) != BackfillSource::Unknown ==> source_name(source_of(name)) == name,
        source_of(name) != BackfillSource::Unknown && source_of(name) == source_of(other) ==> name == other,
        source_of(name) == BackfillSource::Unknown <==> !source_names().contains(name),
        s != BackfillSource::Unknown ==> source_of(source_name(s)) == s,
{
    reveal_strlit("databento");
    reveal_strlit("stooq");
    reveal_strlit("curtailment");
    reveal_strlit("reserves");
    reveal_strlit("databento_debug");
    reveal_strlit("databento_ohlcv");
    reveal_strlit("recalculate_spreads");
    reveal_strlit("ohlcv_status");
    assert("databento_debug"@[10] != "databento_ohlcv"@[10]);
    let ps = source_names();
    match s {
        BackfillSource::Databento => {}
        BackfillSource::Stooq => {
            assert("stooq"@[0] != "databento"@[0]);
        }
        BackfillSource::Curtailment => {
            assert("curtailment"@[0] != "databento"@[0]);
            assert("curtailment"@[0] != "stooq"@[0]);
        }
        BackfillSource::Reserves => {
            assert("reserves"@[0] != "databento"@[0]);
            assert("reserves"@[0] != "stooq"@[0]);
            assert("reserves"@[0] != "curtailment"@[0]);
        }
        BackfillSource::DatabentoDebug => {
            assert("databento_debug"@.len() != "databento"@.len());
            assert("databento_debug"@[0] != "stooq"@[0]);
            assert("databento_debug"@[0] != "curtailment"@[0]);
            assert("databento_debug"@[0] != "reserves"@[0]);
        }
        BackfillSource::DatabentoOhlcv => {
            assert("databento_ohlcv"@.len() != "databento"@.len());
            assert("databento_ohlcv"@[0] != "stooq"@[0]);
            assert("databento_ohlcv"@[0] != "curtailment"@[0]);
            assert("databento_ohlcv"@[0] != "reserves"@[0]);
            assert("databento_ohlcv"@[10] != "databento_debug"@[10]);
        }
        BackfillSource::RecalculateSpreads => {
            assert("recalculate_spreads"@[0] != "databento"@[0]);
            assert("recalculate_spreads"@[0] != "stooq"@[0]);
            assert("recalculate_spreads"@[0] != "curtailment"@[0]);
            assert("recalculate_spreads"@.len() != "reserves"@.len());
            assert("recalculate_spreads"@[0] != "databento_debug"@[0]);
            assert("recalculate_spreads"@[0] != "databento_ohlcv"@[0]);
        }
        BackfillSource::OhlcvStatus => {
            assert("ohlcv_status"@[0] != "databento"@[0]);
            assert("ohlcv_status"@[0] != "stooq"@[0]);
            assert("ohlcv_status"@[0] != "curtailment"@[0]);
            assert("ohlcv_status"@[0] != "reserves"@[0]);
            assert("ohlcv_status"@[0] != "databento_debug"@[0]);
            assert("ohlcv_status"@[0] != "databento_ohlcv"@[0]);
            assert("ohlcv_status"@[0] != "recalculate_spreads"@[0]);
        }
        BackfillSource::Unknown => {}
    }
    if source_of(name) == BackfillSource::Unknown {
        assert forall|i: int| 0 <= i < ps.len() implies ps[i] != name by {}
    } else {
        assert(ps.contains(name)) by {
            if name == "databento"@ { assert(ps[0] == name); }
            else if name == "stooq"@ { assert(ps[1] == name); }
            else if name == "curtailment"@ { assert(ps[2] == name); }
            else if name == "reserves"@ { assert(ps[3] == name); }
            else if name == "databento_debug"@ { assert(ps[4] == name); }
            else if name == "databento_ohlcv"@ { assert(ps[5] == name); }
            else if name == "recalculate_spreads"@ { assert(ps[6] == name); }
            else { assert(ps[7] == name); }
        }
    }
}

/// The backfill source named in a request; Databento when none is named.
pub fn backfill_source(source: &Option<String>) -> (r: BackfillSource)
    ensures
        r == (match *source {
            Some(s) => source_of(s@),
            None => BackfillSource::Databento,
        }),
{
    match source {
        None => BackfillSource::Databento,
        Some(s) => {
            let n = s.as_str();
            if same_text(n, "databento") {
                BackfillSource::Databento
            } else if same_text(n, "stooq") {
                BackfillSource::Stooq
            } else if same_text(n, "curtailment") {
                BackfillSource::Curtailment
            } else if same_text(n, "reserves") {
                BackfillSource::Reserves
            } else if same_text(n, "databento_debug") {
                BackfillSource::DatabentoDebug
            } else if same_text(n, "databento_ohlcv") {
                BackfillSource::DatabentoOhlcv
            } else if same_text(n, "recalculate_spreads") {
                BackfillSource::RecalculateSpreads
            } else if same_text(n, "ohlcv_status") {
                BackfillSource::OhlcvStatus
            } else {
                BackfillSource::Unknown
            }
        }
    }
}

/// Outcome of checking a backfill request.
#[derive(Clone, Copy, Debug, PartialEq, Eq, Structural)]
pub enum BackfillDecision {
    /// The token does not match.
    Unauthorized,
    /// No database is connected.
    NoDatabase,
    /// Run the named source over the given number of days.
    Run(BackfillSource, i64),
}

/// Checks the token first, then the database, then resolves source and range.
pub fn decide_backfill(params: &BackfillParams, expected_token: &str, has_db: bool) -> (r: BackfillDecision)
    ensures
        params.token@ != expected_token@ ==> r == BackfillDecision::Unauthorized,
        params.token@ == expected_token@ && !has_db ==> r == BackfillDecision::NoDatabase,
        params.token@ == expected_token@ && has_db ==> r == BackfillDecision::Run(
            match params.source {
                Some(s) => source_of(s@),
                None => BackfillSource::Databento,
            },
            capped_days(params.days),
        ),
{
    if !same_text(params.token.as_str(), expected_token) {
        return BackfillDecision::Unauthorized;
    }
    if !has_db {
        return BackfillDecision::NoDatabase;
    }
    BackfillDecision::Run(backfill_source(&params.source), backfill_days(params.days))
}

/// Day offsets a day-by-day backfill walks through: `days - 1` down to 0.
pub fn backfill_day_offsets(days: i64) -> (r: Vec<i64>)
    ensures
        r.len() == (if days > 0 { days as int } else { 0 }),
        forall|k: int| 0 <= k < r.len() ==> #[trigger] r[k] == days - 1 - k,
{
    let mut r: Vec<i64> = Vec::new();
    if days <= 0 {
        return r;
    }
    let mut off: i64 = days;
    while off > 0
        invariant
            0 <= off <= days,
            r.len() == days - off,
            forall|k: int| 0 <= k < r.len() ==> #[trigger] r[k] == days - 1 - k,
        decreases off,
    {
        off = off - 1;
        r.push(off);
    }
    r
}

/// What a cache-refresh request does.
#[derive(Debug, Clone)]
pub enum RefreshAction {
    /// The token does not match.
    Unauthorized,
    /// Drop every cached response.
    ClearAll,
    /// Drop the cached response of one route.
    Invalidate(String),
}

/// A refresh with no route, or the route `all`, clears everything.
pub fn decide_refresh(params: &RefreshParams, expected_token: &str) -> (r: RefreshAction)
    ensures
        params.token@ != expected_token@ ==> r is Unauthorized,
        params.token@ == expected_token@ ==> match params.route {
            None => r is ClearAll,
            Some(route) => if route@ == "all"@ {
                r is ClearAll
            } else {
                r matches RefreshAction::Invalidate(k) && k@ == route@
            },
        },
{
    if !same_text(params.token.as_str(), expected_token) {
        return RefreshAction::Unauthorized;
    }
    match &params.route {
        None => RefreshAction::ClearAll,
        Some(route) => {
            if same_text(route.as_str(), "all") {
                RefreshAction::ClearAll
            } else {
                RefreshAction::Invalidate(route.clone())
            }
        }
    }
}

/// What chrono's `NaiveDateTime::parse_from_str(s, "%Y-%m-%d %H:%M:%S")`
/// yields for `s`: year, month, day, hour, minute and second, or nothing.
pub uninterp spec fn parsed_date_time(s: Seq<char>) -> Option<(int, int, int, int, int, int)>;

/// Parses `YYYY-MM-DD HH:MM:SS` with chrono (`NaiveDateTime::parse_from_str`).
///
/// Claims that the result is what `parsed_date_time` names for the text, and
/// the ranges chrono's dates and times always keep (hour below 24, minute and
/// second below 60); how chrono reads the format is not restated.
#[verifier::external_body]
fn parse_date_time(s: &str) -> (r: Option<(Date, u32, u32, u32)>)
    ensures
        r is Some <==> parsed_date_time(s@) is Some,
        r matches Some((d, h, mi, sec)) ==> d.valid() && h < 24 && mi < 60 && sec < 60
            && parsed_date_time(s@) == Some((d.year as int, d.month as int, d.day as int, h as int, mi as int, sec as int)),
{
    chrono::NaiveDateTime::parse_from_str(s, "%Y-%m-%d %H:%M:%S").ok().map(|t| {
        (Date { year: t.year(), month: t.month(), day: t.day() }, t.hour(), t.minute(), t.second())
    })
}

/// A wall-clock date and time as epoch seconds read as UTC.
pub open spec fn wall_seconds(y: int, m: int, d: int, h: int, mi: int, s: int) -> int {
    day_number(Date { year: y as i32, month: m as u32, day: d as u32 }) * 86400 + h * 3600 + mi * 60 + s
}

/// The UTC instant of a PSE timestamp, which is Warsaw wall-clock time.
pub open spec fn pse_instant(dtime: Seq<char>) -> Option<int> {
    match parsed_date_time(dtime) {
        None => None,
        Some((y, m, d, h, mi, s)) => {
            let w = wall_seconds(y, m, d, h, mi, s);
            if FIRST_UTC_SECOND <= w <= LAST_UTC_SECOND {
                match warsaw_mapping(w) {
                    WallMapping::Single(t) => Some(t as int),
                    _ => None,
                }
            } else {
                None
            }
        },
    }
}

/// The wall-clock time of a `YYYY-MM-DD HH:MM:SS` text as epoch seconds read
/// as UTC; nothing when it does not parse. A leap second `:60` counts as the
/// second before it, as chrono's timestamp of a leap second does.
pub fn wall_seconds_of(dtime: &str) -> (r: Option<i64>)
    ensures
        r is Some <==> parsed_date_time(dtime@) is Some,
        r matches Some(w) ==> (parsed_date_time(dtime@) matches Some((y, m, d, h, mi, s))
            && w == wall_seconds(y, m, d, h, mi, s)),
        r matches Some(w) ==> FIRST_UTC_SECOND - 86400 < w < LAST_UTC_SECOND + 86400,
{
    let (d, h, mi, sec) = match parse_date_time(dtime) {
        Some(p) => p,
        None => {
            return None;
        }
    };
    proof {
        crate::calendar::lemma_day_number_bounds(d);
    }
    Some(day_number_of(d) * 86400 + (h as i64) * 3600 + (mi as i64) * 60 + sec as i64)
}

/// UTC epoch seconds of a PSE `dtime` (`YYYY-MM-DD HH:MM:SS`, Warsaw time);
/// nothing when it does not parse or names no single instant.
pub fn parse_pse_dtime_utc(dtime: &str) -> (r: Option<i64>)
    ensures
        r is Some <==> pse_instant(dtime@) is Some,
        r matches Some(x) ==> pse_instant(dtime@) == Some(x as int),
{
    let wall = match wall_seconds_of(dtime) {
        Some(w) => w,
        None => {
            return None;
        }
    };
    if wall < FIRST_UTC_SECOND || wall > LAST_UTC_SECOND {
        return None;
    }
    match warsaw_wall_mapping(wall) {
        WallMapping::Single(t) => Some(t),
        _ => None,
    }
}

} // verus!
