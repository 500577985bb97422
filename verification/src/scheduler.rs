//! Timing of the daily settlement fetch.

use vstd::prelude::*;
use crate::cache::{MAX_INSTANT_SECS, UtcInstant};
use crate::ordering::utc_day;
use crate::text::owned;

verus! {

/// Daily run time, 19:30 UTC, in seconds after midnight.
pub const RUN_SECOND_OF_DAY: i64 = 70_200;

/// Start (in epoch seconds) of the next run: today's 19:30 if still ahead,
/// tomorrow's otherwise.
pub open spec fn next_run_secs(now: UtcInstant) -> int {
    let target = utc_day(now.secs as int) * 86400 + RUN_SECOND_OF_DAY;
    if now.secs < target { target } else { target + 86400 }
}

/// Whole seconds to wait until the next run (never negative).
pub open spec fn wait_seconds(now: UtcInstant) -> int {
    let d = next_run_secs(now) * 1_000_000_000 - now.total_nanos();
    if d <= 0 { 0 } else { d / 1_000_000_000 }
}

/// Seconds to sleep before the next daily run.
pub fn seconds_until_next_run(now: UtcInstant) -> (r: u64)
    requires
        now.valid(),
    ensures
        r == wait_seconds(now),
{
    let secs = now.secs;
    let day: i64 = if secs >= 0 { secs / 86400 } else { -((-(secs as i128) + 86399) / 86400) as i64 };
    assert(day == utc_day(secs as int));
    let target: i64 = day * 86400 + RUN_SECOND_OF_DAY;
    let next: i64 = if secs < target { target } else { target + 86400 };
    let whole: i64 = next - secs;
    proof {
        assert(utc_day(secs as int) * 86400 <= secs) by (nonlinear_arith)
            requires
                day == utc_day(secs as int),
                secs >= 0 ==> day == secs / 86400,
                secs < 0 ==> day == -((-secs + 86399) / 86400),
        {
        }
        assert(secs < utc_day(secs as int) * 86400 + 86400) by (nonlinear_arith)
            requires
                secs >= 0 ==> day == secs / 86400,
                secs < 0 ==> day == -((-secs + 86399) / 86400),
                day == utc_day(secs as int),
        {
        }
    }
    assert(1 <= whole <= 2 * 86400);
    let r: u64 = if now.nanos > 0 { (whole - 1) as u64 } else { whole as u64 };
    proof {
        let d = next * 1_000_000_000 - now.total_nanos();
        assert(d == whole * 1_000_000_000 - now.nanos);
        if now.nanos > 0 {
            assert(d / 1_000_000_000 == whole - 1) by (nonlinear_arith)
                requires
                    d == whole * 1_000_000_000 - now.nanos,
                    0 < now.nanos < 1_000_000_000,
            {
            }
        } else {
            assert(d / 1_000_000_000 == whole) by (nonlinear_arith)
                requires
                    d == whole * 1_000_000_000,
            {
            }
        }
    }
    r
}

/// The next run starts strictly after now, no more than a day ahead, at 19:30 UTC.
pub proof fn law_next_run_within_a_day(now: UtcInstant)
    requires
        now.valid(),
    ensures
        now.secs < next_run_secs(now) <= now.secs + 86400,
        (next_run_secs(now) - RUN_SECOND_OF_DAY) % 86400 == 0,
        0 <= wait_seconds(now) <= 86400,
{
    let secs = now.secs as int;
    let day = utc_day(secs);
    assert(day * 86400 <= secs < day * 86400 + 86400) by (nonlinear_arith)
        requires
            secs >= 0 ==> day == secs / 86400,
            secs < 0 ==> day == -((-secs + 86399) / 86400),
    {
    }
    let nr = next_run_secs(now);
    assert((nr - RUN_SECOND_OF_DAY) % 86400 == 0) by (nonlinear_arith)
        requires
            nr == day * 86400 + RUN_SECOND_OF_DAY || nr == day * 86400 + RUN_SECOND_OF_DAY + 86400,
    {
    }
    let d = nr * 1_000_000_000 - now.total_nanos();
    assert(d <= 86400 * 1_000_000_000);
    if d > 0 {
        assert(d / 1_000_000_000 <= 86400) by (nonlinear_arith)
            requires
                0 < d <= 86400 * 1_000_000_000,
        {
        }
    }
}

/// Time of day, 17:30 UTC, stamped on the settlements written by the daily run.
pub const SETTLEMENT_SECOND_OF_DAY: i64 = 63_000;

/// Epoch seconds of 17:30 UTC on the UTC date of `now`.
pub fn settlement_time(now: UtcInstant) -> (r: i64)
    requires
        now.valid(),
    ensures
        r == utc_day(now.secs as int) * 86400 + SETTLEMENT_SECOND_OF_DAY,
{
    let day = crate::ordering::utc_day_of(now.secs);
    proof {
        assert(-100_000_000 <= day <= 100_000_000) by (nonlinear_arith)
            requires
                day == utc_day(now.secs as int),
                -MAX_INSTANT_SECS <= now.secs <= MAX_INSTANT_SECS,
        {
        }
    }
    day * 86400 + SETTLEMENT_SECOND_OF_DAY
}

/// Caches dropped after a successful daily fetch.
pub fn refreshed_cache_keys() -> (r: Vec<String>)
    ensures
        r@.map_values(|s: String| s@) == seq!["fuels"@, "summary"@, "forecast"@, "spreads"@],
{
    let mut r: Vec<String> = Vec::new();
    r.push(owned("fuels"));
    r.push(owned("summary"));
    r.push(owned("forecast"));
    r.push(owned("spreads"));
    assert(r@.map_values(|s: String| s@) =~= seq!["fuels"@, "summary"@, "forecast"@, "spreads"@]);
    r
}

} // verus!
