//! Request planning and record keys for the PSE reporting API.

use vstd::prelude::*;
use chrono::{Datelike, Offset, TimeZone};
use vstd::string::*;
use crate::cache::{FIRST_UTC_SECOND, LAST_UTC_SECOND, MAX_INSTANT_SECS, utc_now};
use crate::calendar::{Date, add_days, date_le, date_plus, date_plus_defined, day_number, day_number_of, iso_string, iso_text, on_or_before, push_iso};
use crate::ordering::{utc_day, utc_day_of};
use crate::text::{owned, push_str};

verus! {

/// Lexicographic "strictly before" on dates.
pub open spec fn date_lt(a: Date, b: Date) -> bool {
    date_le(a, b) && a != b
}

/// Stepping forward through existing dates moves strictly later.
pub proof fn lemma_date_plus_later(d: Date, n: int)
    requires
        n >= 1,
        date_plus_defined(d, n),
    ensures
        date_lt(d, date_plus(d, n)),
    decreases n,
{
    let nd = crate::calendar::next_day(d);
    assert(date_plus_defined(nd, n - 1));
    assert(date_plus(d, n) == date_plus(nd, n - 1));
    assert(date_lt(d, nd));
    if n > 1 {
        lemma_date_plus_later(nd, n - 1);
    } else {
        assert(date_plus(nd, 0) == nd);
    }
}

/// The dates visited from `d` in steps of `step` days while on or before `end`.
pub open spec fn stepped_dates(d: Date, end: Date, step: int) -> Seq<Date>
    decreases end.year - d.year, 12 - d.month, 31 - d.day,
{
    if !date_le(d, end) || !d.valid() {
        Seq::empty()
    } else if step >= 1 && date_plus_defined(d, step) && date_le(date_plus(d, step), end) {
        proof {
            lemma_date_plus_later(d, step);
            crate::calendar::lemma_date_plus_valid(d, step);
        }
        seq![d] + stepped_dates(date_plus(d, step), end, step)
    } else {
        seq![d]
    }
}

/// Every step taken from a visited date lands on an existing date (the walk
/// always steps once more after each visited date).
pub open spec fn steps_defined(d: Date, end: Date, step: int) -> bool
    decreases end.year - d.year, 12 - d.month, 31 - d.day,
{
    if !date_le(d, end) || !d.valid() {
        true
    } else if step >= 1 && date_plus_defined(d, step) {
        if date_le(date_plus(d, step), end) {
            proof {
                lemma_date_plus_later(d, step);
                crate::calendar::lemma_date_plus_valid(d, step);
            }
            steps_defined(date_plus(d, step), end, step)
        } else {
            true
        }
    } else {
        false
    }
}

/// `business_date ge '{day}' and business_date le '{day}'`.
pub open spec fn day_filter_text(d: Date) -> Seq<char> {
    "business_date ge '"@ + iso_text(d) + "' and business_date le '"@ + iso_text(d) + "'"@
}

/// The single-day filter of a business date.
pub fn day_filter(d: Date) -> (r: String)
    requires
        d.valid(),
    ensures
        r@ == day_filter_text(d),
{
    let mut s = owned("business_date ge '");
    push_iso(&mut s, d);
    push_str(&mut s, "' and business_date le '");
    push_iso(&mut s, d);
    push_str(&mut s, "'");
    s
}

/// One single-day filter per visited date, from `start` in steps of `step`
/// days while on or before `end`.
pub fn day_filters(start: Date, end: Date, step: i64) -> (r: Vec<String>)
    requires
        start.valid(),
        steps_defined(start, end, step as int),
    ensures
        r@.map_values(|x: String| x@) == stepped_dates(start, end, step as int).map_values(|d: Date| day_filter_text(d)),
{
    let ghost all = stepped_dates(start, end, step as int).map_values(|d: Date| day_filter_text(d));
    let mut r: Vec<String> = Vec::new();
    if !on_or_before(start, end) {
        assert(stepped_dates(start, end, step as int) =~= Seq::<Date>::empty());
        assert(r@.map_values(|x: String| x@) =~= all);
        return r;
    }
    let mut date = start;
    loop
        invariant_except_break
            date.valid(),
            date_le(date, end),
            steps_defined(date, end, step as int),
            r@.map_values(|x: String| x@) + stepped_dates(date, end, step as int).map_values(|d: Date| day_filter_text(d)) == all,
        invariant
            all == stepped_dates(start, end, step as int).map_values(|d: Date| day_filter_text(d)),
        ensures
            r@.map_values(|x: String| x@) == all,
        decreases end.year - date.year, 12 - date.month, 31 - date.day,
    {
        let ghost old_r = r@;
        let ghost here = stepped_dates(date, end, step as int);
        r.push(day_filter(date));
        assert(r@.map_values(|x: String| x@) =~= old_r.map_values(|x: String| x@).push(day_filter_text(date)));
        let next = match add_days(date, step) {
            Some(n) => n,
            None => {
                assert(false);
                date
            }
        };
        proof {
            lemma_date_plus_later(date, step as int);
            if date_le(next, end) {
                assert(here == seq![date] + stepped_dates(next, end, step as int));
            } else {
                assert(here == seq![date]);
                assert(stepped_dates(next, end, step as int) =~= Seq::<Date>::empty());
            }
            assert(here.map_values(|d: Date| day_filter_text(d))
                =~= seq![day_filter_text(date)] + stepped_dates(next, end, step as int).map_values(|d: Date| day_filter_text(d)));
            assert(r@.map_values(|x: String| x@) + stepped_dates(next, end, step as int).map_values(|d: Date| day_filter_text(d)) =~= all);
        }
        if !on_or_before(next, end) {
            assert(stepped_dates(next, end, step as int) =~= Seq::<Date>::empty());
            assert(r@.map_values(|x: String| x@) =~= all);
            break;
        }
        date = next;
    }
    r
}

/// What chrono's `NaiveDate::parse_from_str(s, "%Y-%m-%d")` yields for `s`:
/// year, month and day, or nothing when it rejects the text.
pub uninterp spec fn parsed_ymd(s: Seq<char>) -> Option<(int, int, int)>;

/// Parses a `%Y-%m-%d` date with chrono (`NaiveDate::parse_from_str`).
///
/// Claims that the result is what `parsed_ymd` names for the text and that a
/// parsed date is a supported date (chrono's dates all are); how chrono
/// reads the format is not restated.
#[verifier::external_body]
pub(crate) fn parse_ymd(s: &str) -> (r: Option<Date>)
    ensures
        r is Some <==> parsed_ymd(s@) is Some,
        r matches Some(d) ==> d.valid() && parsed_ymd(s@) == Some((d.year as int, d.month as int, d.day as int)),
{
    chrono::NaiveDate::parse_from_str(s, "%Y-%m-%d").ok().map(|d| Date { year: d.year(), month: d.month(), day: d.day() })
}

/// Whether the walk from `start` to `end` in steps of `step` days stays on
/// existing dates.
pub fn walk_is_defined(start: Date, end: Date, step: i64) -> (r: bool)
    requires
        start.valid(),
    ensures
        r == steps_defined(start, end, step as int),
{
    if step < 1 {
        if on_or_before(start, end) {
            return false;
        }
        return true;
    }
    let mut date = start;
    while on_or_before(date, end)
        invariant
            date.valid(),
            step >= 1,
            steps_defined(start, end, step as int) == steps_defined(date, end, step as int),
        decreases end.year - date.year, 12 - date.month, 31 - date.day,
    {
        match add_days(date, step) {
            Some(next) => {
                proof {
                    lemma_date_plus_later(date, step as int);
                }
                if !on_or_before(next, end) {
                    return true;
                }
                date = next;
            }
            None => {
                return false;
            }
        }
    }
    true
}

/// The single-day filters between two `%Y-%m-%d` dates, stepping `step`
/// days: empty when either date does not parse, `None` when the walk would
/// step past the last supported date.
pub fn day_filters_between(start: &str, end: &str, step: i64) -> (r: Option<Vec<String>>)
    ensures
        (parsed_ymd(start@) is None || parsed_ymd(end@) is None) ==> (r matches Some(v) && v.len() == 0),
        (r is Some && parsed_ymd(start@) is Some && parsed_ymd(end@) is Some) ==> {
            let v = r->0;
            let (sy, sm, sd) = parsed_ymd(start@)->0;
            let (ey, em, ed) = parsed_ymd(end@)->0;
            let s = Date { year: sy as i32, month: sm as u32, day: sd as u32 };
            let e = Date { year: ey as i32, month: em as u32, day: ed as u32 };
            &&& steps_defined(s, e, step as int)
            &&& v@.map_values(|x: String| x@) == stepped_dates(s, e, step as int).map_values(|d: Date| day_filter_text(d))
        },
        r is None ==> parsed_ymd(start@) is Some && parsed_ymd(end@) is Some,
{
    let (s, e) = match (parse_ymd(start), parse_ymd(end)) {
        (Some(s), Some(e)) => (s, e),
        _ => {
            return Some(Vec::new());
        }
    };
    if !walk_is_defined(s, e, step) {
        return None;
    }
    Some(day_filters(s, e, step))
}

/// Warsaw local hour of PSE's 1-based `godzina` (1 is midnight, 24 is 23:00);
/// other values name no hour.
pub fn local_hour(godzina: u32) -> (r: Option<u32>)
    ensures
        r == (if 1 <= godzina <= 24 { Some((godzina - 1) as u32) } else { None::<u32> }),
{
    if godzina >= 1 && godzina <= 24 {
        Some(godzina - 1)
    } else {
        None
    }
}

/// Hour field of a PSE timestamp: bytes 11 and 12 read as an unsigned byte
/// value, 0 when absent or not a number.
pub open spec fn hour_field(bytes: Seq<u8>) -> int {
    if bytes.len() >= 13 {
        let a = bytes[11];
        let b = bytes[12];
        if a == 43 && is_digit_byte(b) {
            b - 48
        } else if is_digit_byte(a) && is_digit_byte(b) {
            (a - 48) * 10 + (b - 48)
        } else {
            0
        }
    } else {
        0
    }
}

/// An ASCII decimal digit.
pub open spec fn is_digit_byte(b: u8) -> bool {
    48 <= b <= 57
}

/// The hour a 15-minute PSE record (`YYYY-MM-DD HH:MM:SS`) belongs to.
pub fn hour_of_dtime(dtime: &str) -> (r: u8)
    ensures
        r == hour_field(dtime.spec_bytes()),
{
    let b = dtime.as_bytes();
    if b.len() < 13 {
        return 0;
    }
    let c0 = b[11];
    let c1 = b[12];
    let d0 = c0 >= 48 && c0 <= 57;
    let d1 = c1 >= 48 && c1 <= 57;
    if c0 == 43 && d1 {
        c1 - 48
    } else if d0 && d1 {
        let v: u32 = (c0 as u32 - 48) * 10 + (c1 as u32 - 48);
        v as u8
    } else {
        0
    }
}

/// Month key of a business date: its first seven bytes, when it has that many.
pub fn month_key(business_date: &str) -> (r: Option<&str>)
    requires
        business_date.spec_bytes().len() >= 7 ==> vstd::utf8::is_char_boundary(business_date.spec_bytes(), 7),
    ensures
        r is Some <==> business_date.spec_bytes().len() >= 7,
        r matches Some(m) ==> m.spec_bytes() == business_date.spec_bytes().subrange(0, 7),
{
    let n = business_date.as_bytes().len();
    if n >= 7 {
        let (head, _) = business_date.split_at(7);
        Some(head)
    } else {
        None
    }
}

/// 1970-01-01, the first day of the Unix epoch.
pub open spec fn epoch_day() -> Date {
    Date { year: 1970, month: 1, day: 1 }
}

/// The UTC calendar date of an instant given in epoch seconds.
pub open spec fn utc_date_of(secs: int) -> Date {
    date_plus(epoch_day(), utc_day(secs))
}

/// The UTC date of the instant is a supported date.
pub open spec fn utc_date_defined(secs: int) -> bool {
    date_plus_defined(epoch_day(), utc_day(secs))
}

/// The UTC calendar date of an instant, when it is a supported date.
pub fn utc_date(secs: i64) -> (r: Option<Date>)
    ensures
        r is Some <==> utc_date_defined(secs as int),
        r matches Some(d) ==> d == utc_date_of(secs as int) && d.valid(),
{
    let epoch = Date { year: 1970, month: 1, day: 1 };
    add_days(epoch, utc_day_of(secs))
}

/// Every instant from chrono's first to its last representable second has a
/// supported UTC date.
pub proof fn lemma_utc_date_defined(secs: int)
    requires
        FIRST_UTC_SECOND <= secs <= LAST_UTC_SECOND,
    ensures
        utc_date_defined(secs),
        -96_465_292 <= utc_day(secs) <= 95_026_236,
{
    if secs >= 0 {
        assert(secs / 86400 <= 95_026_236) by (nonlinear_arith)
            requires
                0 <= secs <= 8_210_266_876_799,
        ;
        assert(0 <= secs / 86400) by (nonlinear_arith)
            requires
                0 <= secs,
        ;
    } else {
        assert((-secs + 86399) / 86400 <= 96_465_292) by (nonlinear_arith)
            requires
                0 < -secs <= 8_334_601_228_800,
        ;
        assert(0 <= (-secs + 86399) / 86400) by (nonlinear_arith)
            requires
                0 < -secs,
        ;
    }
    crate::calendar::lemma_calendar_ends();
    assert(day_number(epoch_day()) == 0);
    crate::calendar::lemma_date_plus_defined_within(epoch_day(), utc_day(secs));
}

/// The date of an instant has the instant's day count since the epoch.
pub proof fn law_utc_date_counts_days(secs: int)
    requires
        utc_date_defined(secs),
    ensures
        day_number(utc_date_of(secs)) == utc_day(secs),
{
    crate::calendar::lemma_day_number_plus(epoch_day(), utc_day(secs));
}

/// `YYYY-MM-DD` of the UTC date `days` days before the instant `now_secs`.
pub fn days_ago_text(now_secs: i64, days: i64) -> (r: Option<String>)
    ensures
        r is Some <==> utc_date_defined(now_secs as int) && date_plus_defined(utc_date_of(now_secs as int), -days),
        r matches Some(s) ==> s@ == iso_text(date_plus(utc_date_of(now_secs as int), -days)),
{
    let today = match utc_date(now_secs) {
        Some(d) => d,
        None => {
            return None;
        }
    };
    if days > 200_000_000 || days < -200_000_000 {
        proof {
            if date_plus_defined(today, -days) {
                crate::calendar::lemma_date_plus_span(today, -days);
            }
        }
        return None;
    }
    match add_days(today, -days) {
        Some(d) => Some(iso_string(d)),
        None => None,
    }
}

/// Stepping back `days` days from an instant's date lands `days` day counts earlier.
pub proof fn law_days_ago_counts_back(now_secs: int, days: int)
    requires
        utc_date_defined(now_secs),
        date_plus_defined(utc_date_of(now_secs), -days),
    ensures
        day_number(date_plus(utc_date_of(now_secs), -days)) == utc_day(now_secs) - days,
{
    law_utc_date_counts_days(now_secs);
    crate::calendar::lemma_day_number_plus(utc_date_of(now_secs), -days);
}

/// `YYYY-MM-DD` of the date at an instant shifted by a UTC offset in seconds.
pub fn local_date_text(utc_secs: i64, offset_secs: i32) -> (r: Option<String>)
    requires
        -MAX_INSTANT_SECS <= utc_secs <= MAX_INSTANT_SECS,
    ensures
        r is Some <==> utc_date_defined(utc_secs + offset_secs),
        r matches Some(s) ==> s@ == iso_text(utc_date_of(utc_secs + offset_secs))
            && utc_date_of(utc_secs + offset_secs).valid(),
{
    let local: i64 = utc_secs + offset_secs as i64;
    match utc_date(local) {
        Some(d) => Some(iso_string(d)),
        None => None,
    }
}

/// What chrono-tz gives as Europe/Warsaw's offset from UTC, in seconds, at
/// an instant in epoch seconds.
pub uninterp spec fn warsaw_offset(utc_secs: int) -> int;

/// Europe/Warsaw's offset from UTC at an instant (chrono-tz's
/// `offset_from_utc_datetime`, then `fix().local_minus_utc()`).
///
/// Claims that the result is what `warsaw_offset` names for the instant; the
/// time-zone rules themselves are not restated, only that the offset is
/// less than a day either way (chrono builds it with `FixedOffset::east_opt`,
/// which admits no other). The instant must be one chrono can represent.
#[verifier::external_body]
fn warsaw_offset_at(utc_secs: i64) -> (r: i32)
    requires
        0 <= utc_secs <= LAST_UTC_SECOND,
    ensures
        r == warsaw_offset(utc_secs as int),
        -86_400 < r < 86_400,
{
    let utc = chrono::DateTime::from_timestamp(utc_secs, 0).unwrap();
    chrono_tz::Europe::Warsaw.offset_from_utc_datetime(&utc.naive_utc()).fix().local_minus_utc()
}

/// Warsaw's calendar date at an instant given in epoch seconds.
pub open spec fn warsaw_date_at(now: int) -> Date {
    utc_date_of(now + warsaw_offset(now))
}

/// Today's date in Warsaw as `YYYY-MM-DD`, read at one instant of the clock.
/// It is missing only when that instant lies within a day of chrono's last
/// representable second and Warsaw's date there is past the calendar.
pub fn today_warsaw() -> (r: Option<String>)
    ensures
        exists|now: int| 0 <= now <= LAST_UTC_SECOND
            && (r is Some <==> utc_date_defined(now + warsaw_offset(now)))
            && (r is None ==> now > LAST_UTC_SECOND - 86_400)
            && (r matches Some(s) ==> s@ == iso_text(#[trigger] warsaw_date_at(now))),
{
    let now = utc_now();
    let offset = warsaw_offset_at(now.secs);
    let r = local_date_text(now.secs, offset);
    proof {
        let t = now.secs as int;
        if t <= LAST_UTC_SECOND - 86_400 {
            lemma_utc_date_defined(t + offset);
        }
        assert(warsaw_date_at(t) == utc_date_of(t + offset));
    }
    r
}

/// The UTC date `days` days ago as `YYYY-MM-DD`, counted from one instant of
/// the clock. It is present whenever that date is a supported one, which is
/// always so for `days` from zero to the 96,465,292 days between the first
/// supported date and the epoch.
pub fn date_days_ago(days: i64) -> (r: Option<String>)
    ensures
        exists|now: int| 0 <= now <= LAST_UTC_SECOND
            && (r is Some <==> date_plus_defined(#[trigger] utc_date_of(now), -days))
            && (r matches Some(s) ==> s@ == iso_text(date_plus(utc_date_of(now), -days))),
        0 <= days <= 96_465_292 ==> r is Some,
{
    let now = utc_now();
    let r = days_ago_text(now.secs, days);
    proof {
        let t = now.secs as int;
        lemma_utc_date_defined(t);
        law_utc_date_counts_days(t);
        crate::calendar::lemma_date_plus_valid(epoch_day(), utc_day(t));
        assert(utc_date_of(t).valid());
        if 0 <= days <= 96_465_292 {
            crate::calendar::lemma_calendar_ends();
            crate::calendar::lemma_date_plus_defined_within(utc_date_of(t), -days);
        }
    }
    r
}

/// The UTC date 395 days ago (thirteen months back) as `YYYY-MM-DD`, counted
/// from one instant of the clock; always present.
pub fn thirteen_months_ago() -> (r: Option<String>)
    ensures
        r is Some,
        exists|now: int| 0 <= now <= LAST_UTC_SECOND
            && (r matches Some(s) ==> s@ == iso_text(date_plus(#[trigger] utc_date_of(now), -395))),
{
    let now = utc_now();
    let r = days_ago_text(now.secs, 395);
    proof {
        let t = now.secs as int;
        lemma_utc_date_defined(t);
        law_utc_date_counts_days(t);
        crate::calendar::lemma_date_plus_valid(epoch_day(), utc_day(t));
        crate::calendar::lemma_calendar_ends();
        crate::calendar::lemma_date_plus_defined_within(utc_date_of(t), -395);
    }
    r
}

/// The single-day filter of the UTC date `days` days before the instant
/// `now_secs`, as a day-by-day backfill requests it.
pub fn day_filter_days_ago(now_secs: i64, days: i64) -> (r: Option<String>)
    ensures
        r is Some <==> utc_date_defined(now_secs as int) && date_plus_defined(utc_date_of(now_secs as int), -days),
        r matches Some(s) ==> s@ == day_filter_text(date_plus(utc_date_of(now_secs as int), -days)),
{
    let today = match utc_date(now_secs) {
        Some(d) => d,
        None => {
            return None;
        }
    };
    if days > 200_000_000 || days < -200_000_000 {
        proof {
            if date_plus_defined(today, -days) {
                crate::calendar::lemma_date_plus_span(today, -days);
            }
        }
        return None;
    }
    match add_days(today, -days) {
        Some(d) => Some(day_filter(d)),
        None => None,
    }
}

/// How a Europe/Warsaw wall-clock time maps to UTC instants (epoch seconds).
#[derive(Clone, Copy, Debug, PartialEq, Eq, Structural)]
pub enum WallMapping {
    /// Exactly one instant.
    Single(i64),
    /// Two instants, earliest first (the hour repeated when clocks go back).
    Ambiguous(i64, i64),
    /// None: the hour skipped when clocks go forward.
    Skipped,
}

/// What chrono-tz's `from_local_datetime` for Europe/Warsaw gives for a wall
/// time, itself written as epoch seconds read as if it were UTC.
pub uninterp spec fn warsaw_mapping(wall: int) -> WallMapping;

/// Maps a Warsaw wall-clock time to UTC (chrono's
/// `Warsaw.from_local_datetime`), each outcome to the instants' timestamps.
///
/// Claims that the result is what `warsaw_mapping` names for the wall time;
/// the time-zone rules are not restated.
#[verifier::external_body]
pub(crate) fn warsaw_wall_mapping(wall: i64) -> (r: WallMapping)
    requires
        FIRST_UTC_SECOND <= wall <= LAST_UTC_SECOND,
    ensures
        r == warsaw_mapping(wall as int),
{
    let local = chrono::DateTime::from_timestamp(wall, 0).unwrap().naive_utc();
    match chrono_tz::Europe::Warsaw.from_local_datetime(&local) {
        chrono::LocalResult::Single(t) => WallMapping::Single(t.timestamp()),
        chrono::LocalResult::Ambiguous(a, b) => WallMapping::Ambiguous(a.timestamp(), b.timestamp()),
        chrono::LocalResult::None => WallMapping::Skipped,
    }
}

/// The UTC instant of an energy-price hour: trading day `doba` and PSE's
/// 1-based Warsaw hour `godzina`, at the start of that hour; the earlier
/// instant when the hour repeats.
pub open spec fn energy_price_stamp(doba: Seq<char>, godzina: u32) -> Option<int> {
    let (y, m, d) = parsed_ymd(doba)->0;
    let date = Date { year: y as i32, month: m as u32, day: d as u32 };
    if 1 <= godzina <= 24 {
        let h = godzina - 1;
        {
            let wall = day_number(date) * 86400 + h * 3600;
            if FIRST_UTC_SECOND <= wall <= LAST_UTC_SECOND {
                match warsaw_mapping(wall) {
                    WallMapping::Single(t) => Some(t as int),
                    WallMapping::Ambiguous(t, _) => Some(t as int),
                    WallMapping::Skipped => None,
                }
            } else {
                None
            }
        }
    } else {
        None
    }
}

/// UTC epoch seconds of an energy-price record's hour: an error when the
/// trading day does not parse as `%Y-%m-%d`; nothing when the hour is out of
/// range or skipped by the clock change.
pub fn energy_price_instant(doba: &str, godzina: u32) -> (r: Result<Option<i64>, ()>)
    ensures
        r is Err <==> parsed_ymd(doba@) is None,
        r matches Ok(x) ==> (x is Some <==> energy_price_stamp(doba@, godzina) is Some),
        r matches Ok(Some(t)) ==> energy_price_stamp(doba@, godzina) == Some(t as int),
{
    let date = match parse_ymd(doba) {
        Some(d) => d,
        None => {
            return Err(());
        }
    };
    let hour = match local_hour(godzina) {
        Some(h) => h,
        None => {
            return Ok(None);
        }
    };
    proof {
        crate::calendar::lemma_day_number_bounds(date);
    }
    let wall: i64 = day_number_of(date) * 86400 + (hour as i64) * 3600;
    if wall < FIRST_UTC_SECOND || wall > LAST_UTC_SECOND {
        return Ok(None);
    }
    match warsaw_wall_mapping(wall) {
        WallMapping::Single(t) => Ok(Some(t)),
        WallMapping::Ambiguous(t, _) => Ok(Some(t)),
        WallMapping::Skipped => Ok(None),
    }
}

} // verus!
