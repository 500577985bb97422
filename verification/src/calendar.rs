//! Proleptic Gregorian calendar dates, as the backend's date handling uses them.

use vstd::prelude::*;
use crate::text::{push_char, push_str, push_zero_padded, push_plus_signed_zero_padded, zero_padded, plus_signed_zero_padded};

verus! {

/// Earliest year a calendar date may have.
pub const MIN_YEAR: i32 = -262143;
/// Latest year a calendar date may have.
pub const MAX_YEAR: i32 = 262142;

pub open spec fn is_leap_year(y: int) -> bool {
    (y % 4 == 0 && y % 100 != 0) || y % 400 == 0
}

/// Number of days in month `m` (1..=12) of year `y`.
pub open spec fn month_length(y: int, m: int) -> int {
    if m == 2 {
        if is_leap_year(y) { 29 } else { 28 }
    } else if m == 4 || m == 6 || m == 9 || m == 11 {
        30
    } else {
        31
    }
}

/// A calendar date (year, month 1..=12, day of month).
#[derive(Clone, Copy, Debug, PartialEq, Eq, Structural)]
pub struct Date {
    pub year: i32,
    pub month: u32,
    pub day: u32,
}

impl Date {
    /// The date exists in the supported range of the calendar.
    pub open spec fn valid(self) -> bool {
        &&& MIN_YEAR <= self.year <= MAX_YEAR
        &&& 1 <= self.month <= 12
        &&& 1 <= self.day <= month_length(self.year as int, self.month as int)
    }

    /// The date built from year, month and day, when that date exists.
    pub fn from_ymd_opt(year: i32, month: u32, day: u32) -> (r: Option<Date>)
        ensures
            r is Some <==> (Date { year, month, day }).valid(),
            r matches Some(d) ==> d == (Date { year, month, day }),
    {
        if year < MIN_YEAR || year > MAX_YEAR || month < 1 || month > 12 || day < 1 {
            return None;
        }
        if day > month_days(year, month) {
            return None;
        }
        Some(Date { year, month, day })
    }

    /// Zero-based month (0 for January).
    pub fn month0(&self) -> (r: u32)
        requires
            self.valid(),
        ensures
            r == self.month - 1,
    {
        self.month - 1
    }
}

/// `a` is on or before `b`.
pub open spec fn date_le(a: Date, b: Date) -> bool {
    a.year < b.year || (a.year == b.year && (a.month < b.month || (a.month == b.month && a.day <= b.day)))
}

/// Whether `a` is on or before `b`.
pub fn on_or_before(a: Date, b: Date) -> (r: bool)
    ensures
        r == date_le(a, b),
{
    a.year < b.year || (a.year == b.year && (a.month < b.month || (a.month == b.month && a.day <= b.day)))
}

/// Leap-year test over all supported years.
pub fn leap_year(year: i32) -> (r: bool)
    requires
        MIN_YEAR - 1 <= year <= MAX_YEAR + 1,
    ensures
        r == is_leap_year(year as int),
{
    // Shifting by a multiple of 400 years keeps every divisibility the rule asks about.
    let shifted: u64 = (year as i64 + 400_000) as u64;
    assert(shifted as int == year as int + 400_000);
    assert((year as int + 400_000) % 4 == (year as int) % 4);
    assert((year as int + 400_000) % 100 == (year as int) % 100);
    assert((year as int + 400_000) % 400 == (year as int) % 400);
    (shifted % 4 == 0 && shifted % 100 != 0) || shifted % 400 == 0
}

/// Length of a month, for any month of a supported year.
pub fn month_days(year: i32, month: u32) -> (r: u32)
    requires
        MIN_YEAR - 1 <= year <= MAX_YEAR + 1,
        1 <= month <= 12,
    ensures
        r == month_length(year as int, month as int),
{
    if month == 2 {
        if leap_year(year) { 29 } else { 28 }
    } else if month == 4 || month == 6 || month == 9 || month == 11 {
        30
    } else {
        31
    }
}


/// The following calendar day (when it exists in the supported range).
pub open spec fn next_day(d: Date) -> Date {
    if d.day < month_length(d.year as int, d.month as int) {
        Date { year: d.year, month: d.month, day: (d.day + 1) as u32 }
    } else if d.month < 12 {
        Date { year: d.year, month: (d.month + 1) as u32, day: 1 }
    } else {
        Date { year: (d.year + 1) as i32, month: 1, day: 1 }
    }
}

/// The preceding calendar day.
pub open spec fn prev_day(d: Date) -> Date {
    if d.day > 1 {
        Date { year: d.year, month: d.month, day: (d.day - 1) as u32 }
    } else if d.month > 1 {
        Date { year: d.year, month: (d.month - 1) as u32, day: month_length(d.year as int, d.month - 1) as u32 }
    } else {
        Date { year: (d.year - 1) as i32, month: 12, day: 31 }
    }
}

/// The date `n` days after `d` (before it when `n` is negative), stepping day by day.
pub open spec fn date_plus(d: Date, n: int) -> Date
    decreases (if n >= 0 { n } else { -n }),
{
    if n == 0 {
        d
    } else if n > 0 {
        date_plus(next_day(d), n - 1)
    } else {
        date_plus(prev_day(d), n + 1)
    }
}

/// Every date met while stepping `n` days from `d` is in the supported range.
pub open spec fn date_plus_defined(d: Date, n: int) -> bool
    decreases (if n >= 0 { n } else { -n }),
{
    &&& d.valid()
    &&& (n > 0 ==> date_plus_defined(next_day(d), n - 1))
    &&& (n < 0 ==> date_plus_defined(prev_day(d), n + 1))
}

/// The following day, or `None` after the last supported date.
pub fn succ_opt(d: Date) -> (r: Option<Date>)
    requires
        d.valid(),
    ensures
        r is Some <==> next_day(d).valid(),
        r matches Some(x) ==> x == next_day(d),
{
    let md = month_days(d.year, d.month);
    if d.day < md {
        Some(Date { year: d.year, month: d.month, day: d.day + 1 })
    } else if d.month < 12 {
        Some(Date { year: d.year, month: d.month + 1, day: 1 })
    } else if d.year < MAX_YEAR {
        Some(Date { year: d.year + 1, month: 1, day: 1 })
    } else {
        None
    }
}

/// The preceding day, or `None` before the first supported date.
pub fn pred_opt(d: Date) -> (r: Option<Date>)
    requires
        d.valid(),
    ensures
        r is Some <==> prev_day(d).valid(),
        r matches Some(x) ==> x == prev_day(d),
{
    if d.day > 1 {
        Some(Date { year: d.year, month: d.month, day: d.day - 1 })
    } else if d.month > 1 {
        let md = month_days(d.year, d.month - 1);
        Some(Date { year: d.year, month: d.month - 1, day: md })
    } else if d.year > MIN_YEAR {
        Some(Date { year: d.year - 1, month: 12, day: 31 })
    } else {
        None
    }
}

/// `d` moved by `n` days, when every date on the way exists.
pub fn add_days(d: Date, n: i64) -> (r: Option<Date>)
    requires
        d.valid(),
    ensures
        r is Some <==> date_plus_defined(d, n as int),
        r matches Some(x) ==> x == date_plus(d, n as int) && x.valid(),
{
    let mut cur = d;
    let mut k: i64 = n;
    while k != 0
        invariant
            cur.valid(),
            date_plus_defined(d, n as int) <==> date_plus_defined(cur, k as int),
            date_plus(d, n as int) == date_plus(cur, k as int),
        decreases (if k >= 0 { k as int } else { -(k as int) }),
    {
        if k > 0 {
            match succ_opt(cur) {
                Some(x) => {
                    cur = x;
                    k = k - 1;
                }
                None => {
                    assert(!date_plus_defined(next_day(cur), k - 1));
                    return None;
                }
            }
        } else {
            match pred_opt(cur) {
                Some(x) => {
                    cur = x;
                    k = k + 1;
                }
                None => {
                    assert(!date_plus_defined(prev_day(cur), k + 1));
                    return None;
                }
            }
        }
    }
    Some(cur)
}

/// Days of the months before month `m` of year `y`.
pub open spec fn days_before_month(y: int, m: int) -> int {
    let base: int = if m == 1 { 0 }
        else if m == 2 { 31 }
        else if m == 3 { 59 }
        else if m == 4 { 90 }
        else if m == 5 { 120 }
        else if m == 6 { 151 }
        else if m == 7 { 181 }
        else if m == 8 { 212 }
        else if m == 9 { 243 }
        else if m == 10 { 273 }
        else if m == 11 { 304 }
        else { 334 };
    if m > 2 && is_leap_year(y) { base + 1 } else { base }
}

/// Days from 0000-01-01 to the first day of year `y` (year 0 is a leap year).
pub open spec fn days_before_year(y: int) -> int {
    365 * y + (y + 3) / 4 - (y + 99) / 100 + (y + 399) / 400
}

/// Days since 1970-01-01 (negative before it).
pub open spec fn day_number(d: Date) -> int {
    days_before_year(d.year as int) + days_before_month(d.year as int, d.month as int) + d.day - 1
        - days_before_year(1970)
}

/// Consecutive days have consecutive day numbers.
pub proof fn lemma_day_number_next(d: Date)
    requires
        d.valid(),
    ensures
        day_number(next_day(d)) == day_number(d) + 1,
{
    let y = d.year as int;
    if d.day >= month_length(y, d.month as int) && d.month == 12 {
        assert((y + 1 + 3) / 4 == (y + 3) / 4 + (if y % 4 == 0 { 1int } else { 0 }));
        assert((y + 1 + 99) / 100 == (y + 99) / 100 + (if y % 100 == 0 { 1int } else { 0 }));
        assert((y + 1 + 399) / 400 == (y + 399) / 400 + (if y % 400 == 0 { 1int } else { 0 }));
    }
}

/// Day numbers count the days stepped over.
pub proof fn lemma_day_number_plus(d: Date, n: int)
    requires
        date_plus_defined(d, n),
    ensures
        day_number(date_plus(d, n)) == day_number(d) + n,
    decreases (if n >= 0 { n } else { -n }),
{
    if n > 0 {
        lemma_day_number_next(d);
        lemma_day_number_plus(next_day(d), n - 1);
    } else if n < 0 {
        assert(date_plus_defined(prev_day(d), n + 1));
        lemma_prev_next(d);
        lemma_day_number_next(prev_day(d));
        lemma_day_number_plus(prev_day(d), n + 1);
    }
}

/// Stepping through existing dates ends on an existing date.
pub proof fn lemma_date_plus_valid(d: Date, n: int)
    requires
        date_plus_defined(d, n),
    ensures
        date_plus(d, n).valid(),
    decreases (if n >= 0 { n } else { -n }),
{
    if n > 0 {
        lemma_date_plus_valid(next_day(d), n - 1);
    } else if n < 0 {
        lemma_date_plus_valid(prev_day(d), n + 1);
    }
}

/// Day numbers of supported dates stay far inside the range of `i64`.
pub proof fn lemma_day_number_bounds(d: Date)
    requires
        d.valid(),
    ensures
        -100_000_000 < day_number(d) < 100_000_000,
{
}

/// No walk through existing dates is longer than the calendar.
pub proof fn lemma_date_plus_span(d: Date, n: int)
    requires
        date_plus_defined(d, n),
    ensures
        -200_000_000 < n < 200_000_000,
{
    lemma_day_number_plus(d, n);
    lemma_date_plus_valid(d, n);
    lemma_day_number_bounds(d);
    lemma_day_number_bounds(date_plus(d, n));
}

/// Stepping back then forward returns to the same day.
pub proof fn lemma_prev_next(d: Date)
    requires
        d.valid(),
        prev_day(d).valid(),
    ensures
        next_day(prev_day(d)) == d,
{
}

/// The first supported date, -262143-01-01.
pub open spec fn first_date() -> Date {
    Date { year: MIN_YEAR, month: 1, day: 1 }
}

/// The last supported date, 262142-12-31.
pub open spec fn last_date() -> Date {
    Date { year: MAX_YEAR, month: 12, day: 31 }
}

/// The day numbers of the first and last supported dates.
pub proof fn lemma_calendar_ends()
    ensures
        day_number(first_date()) == -96_465_292,
        day_number(last_date()) == 95_026_236,
{
}

/// A walk of `n` days from a supported date stays on supported dates when
/// its end falls between the first and the last supported day numbers.
pub proof fn lemma_date_plus_defined_within(d: Date, n: int)
    requires
        d.valid(),
        day_number(first_date()) <= day_number(d) + n <= day_number(last_date()),
    ensures
        date_plus_defined(d, n),
    decreases (if n >= 0 { n } else { -n }),
{
    if n > 0 {
        assert(d != last_date());
        assert(next_day(d).valid());
        lemma_day_number_next(d);
        lemma_date_plus_defined_within(next_day(d), n - 1);
    } else if n < 0 {
        assert(d != first_date());
        assert(prev_day(d).valid());
        lemma_prev_next(d);
        lemma_day_number_next(prev_day(d));
        lemma_date_plus_defined_within(prev_day(d), n + 1);
    }
}

/// The day number of a date, as an integer.
pub fn day_number_of(d: Date) -> (r: i64)
    requires
        d.valid(),
    ensures
        r == day_number(d),
{
    let y = d.year as i64;
    let m = d.month;
    let base: i64 = if m == 1 { 0 }
        else if m == 2 { 31 }
        else if m == 3 { 59 }
        else if m == 4 { 90 }
        else if m == 5 { 120 }
        else if m == 6 { 151 }
        else if m == 7 { 181 }
        else if m == 8 { 212 }
        else if m == 9 { 243 }
        else if m == 10 { 273 }
        else if m == 11 { 304 }
        else { 334 };
    let leap_extra: i64 = if m > 2 && leap_year(d.year) { 1 } else { 0 };
    // Euclidean divisions computed on a shifted, non-negative year.
    let shifted: i64 = y + 400_000;
    let q4: i64 = (shifted + 3) / 4 - 100_000;
    let q100: i64 = (shifted + 99) / 100 - 4_000;
    let q400: i64 = (shifted + 399) / 400 - 1_000;
    assert(q4 == (y + 3) / 4);
    assert(q100 == (y + 99) / 100);
    assert(q400 == (y + 399) / 400);
    let days_year: i64 = 365 * y + q4 - q100 + q400;
    days_year + base + leap_extra + d.day as i64 - 1 - 719_528
}

/// Calendar months' three-letter English abbreviations.
pub open spec fn month_abbrev(m: int) -> Seq<char> {
    if m == 1 { "Jan"@ }
    else if m == 2 { "Feb"@ }
    else if m == 3 { "Mar"@ }
    else if m == 4 { "Apr"@ }
    else if m == 5 { "May"@ }
    else if m == 6 { "Jun"@ }
    else if m == 7 { "Jul"@ }
    else if m == 8 { "Aug"@ }
    else if m == 9 { "Sep"@ }
    else if m == 10 { "Oct"@ }
    else if m == 11 { "Nov"@ }
    else { "Dec"@ }
}

/// A year as dates print it: four digits within 0..=9999, otherwise signed
/// and padded to five characters.
pub open spec fn year_text(y: int) -> Seq<char> {
    if 0 <= y <= 9999 {
        zero_padded(y as nat, 4)
    } else {
        plus_signed_zero_padded(y, 5)
    }
}

/// `YYYY-MM-DD`, the date's standard text.
pub open spec fn iso_text(d: Date) -> Seq<char> {
    year_text(d.year as int) + seq!['-'] + zero_padded(d.month as nat, 2) + seq!['-'] + zero_padded(d.day as nat, 2)
}

/// `DD Mon YYYY`.
pub open spec fn day_month_year_text(d: Date) -> Seq<char> {
    zero_padded(d.day as nat, 2) + seq![' '] + month_abbrev(d.month as int) + seq![' '] + year_text(d.year as int)
}

fn push_year(s: &mut String, y: i32)
    requires
        MIN_YEAR <= y <= MAX_YEAR,
    ensures
        final(s)@ == old(s)@ + year_text(y as int),
{
    if 0 <= y && y <= 9999 {
        push_zero_padded(s, y as u64, 4);
    } else {
        push_plus_signed_zero_padded(s, y as i64, 5);
    }
}

/// Appends the date as `YYYY-MM-DD`.
pub fn push_iso(s: &mut String, d: Date)
    requires
        d.valid(),
    ensures
        final(s)@ == old(s)@ + iso_text(d),
{
    let ghost start = s@;
    push_year(s, d.year);
    push_char(s, '-');
    push_zero_padded(s, d.month as u64, 2);
    push_char(s, '-');
    push_zero_padded(s, d.day as u64, 2);
    assert(s@ =~= start + iso_text(d));
}

/// `YYYYMMDD`, the date without separators.
pub open spec fn compact_text(d: Date) -> Seq<char> {
    year_text(d.year as int) + zero_padded(d.month as nat, 2) + zero_padded(d.day as nat, 2)
}

/// Appends the date as `YYYYMMDD`.
pub fn push_compact(s: &mut String, d: Date)
    requires
        d.valid(),
    ensures
        final(s)@ == old(s)@ + compact_text(d),
{
    let ghost start = s@;
    push_year(s, d.year);
    push_zero_padded(s, d.month as u64, 2);
    push_zero_padded(s, d.day as u64, 2);
    assert(s@ =~= start + compact_text(d));
}

/// The date as `YYYY-MM-DD`.
pub fn iso_string(d: Date) -> (r: String)
    requires
        d.valid(),
    ensures
        r@ == iso_text(d),
{
    let mut s = String::new();
    push_iso(&mut s, d);
    assert(s@ =~= iso_text(d));
    s
}

/// Appends the date as `DD Mon YYYY`.
pub fn push_day_month_year(s: &mut String, d: Date)
    requires
        d.valid(),
    ensures
        final(s)@ == old(s)@ + day_month_year_text(d),
{
    let ghost start = s@;
    push_zero_padded(s, d.day as u64, 2);
    push_char(s, ' ');
    let name: &str = match d.month {
        1 => "Jan",
        2 => "Feb",
        3 => "Mar",
        4 => "Apr",
        5 => "May",
        6 => "Jun",
        7 => "Jul",
        8 => "Aug",
        9 => "Sep",
        10 => "Oct",
        11 => "Nov",
        _ => "Dec",
    };
    assert(name@ == month_abbrev(d.month as int));
    push_str(s, name);
    push_char(s, ' ');
    push_year(s, d.year);
    assert(s@ =~= start + day_month_year_text(d));
}

} // verus!
