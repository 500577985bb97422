//! Stooq's daily price history: the download address and the CSV it returns.

use vstd::prelude::*;
use crate::calendar::{Date, add_days, compact_text, date_plus, date_plus_defined, day_number, day_number_of, push_compact};
use crate::pse::{parse_ymd, parsed_ymd};
use crate::text::{float_syntax, is_float_text, owned, push_str};

verus! {

/// The daily-history address of a symbol between two dates.
pub open spec fn history_url_text(symbol: Seq<char>, start: Date, end: Date) -> Seq<char> {
    "https://stooq.com/q/d/l/?s="@ + symbol + "&d1="@ + compact_text(start) + "&d2="@ + compact_text(end)
        + "&i=d"@
}

/// The address of a symbol's daily history over the `days` days up to `end`;
/// nothing when the first of those days is before the supported calendar.
pub fn stooq_history_url(symbol: &str, end: Date, days: u64) -> (r: Option<String>)
    requires
        end.valid(),
    ensures
        r is Some <==> date_plus_defined(end, -days),
        r matches Some(u) ==> u@ == history_url_text(symbol@, date_plus(end, -days), end),
{
    if days > 200_000_000 {
        proof {
            if date_plus_defined(end, -days) {
                crate::calendar::lemma_date_plus_span(end, -days);
            }
        }
        return None;
    }
    let start = match add_days(end, -(days as i64)) {
        Some(d) => d,
        None => {
            return None;
        }
    };
    let mut u = owned("https://stooq.com/q/d/l/?s=");
    push_str(&mut u, symbol);
    push_str(&mut u, "&d1=");
    push_compact(&mut u, start);
    push_str(&mut u, "&d2=");
    push_compact(&mut u, end);
    push_str(&mut u, "&i=d");
    assert(u@ =~= history_url_text(symbol@, start, end));
    Some(u)
}

/// What the `csv` crate's reader, with a header row, yields for the text:
/// the fields of each record after the header, or nothing when it reports
/// an error for some record.
pub uninterp spec fn csv_records(text: Seq<char>) -> Option<Seq<Seq<Seq<char>>>>;

/// Records seen as texts.
pub open spec fn records_view(r: Option<Vec<Vec<String>>>) -> Option<Seq<Seq<Seq<char>>>> {
    match r {
        Some(v) => Some(v@.map_values(|rec: Vec<String>| rec@.map_values(|f: String| f@))),
        None => None,
    }
}

/// Reads CSV text with a header row (`csv::ReaderBuilder::new().has_headers(true)`),
/// each record's fields as strings.
///
/// Claims that the records are what `csv_records` names for the text; the
/// CSV grammar the crate reads is not restated.
#[verifier::external_body]
fn read_csv_records(text: &str) -> (r: Option<Vec<Vec<String>>>)
    ensures
        records_view(r) == csv_records(text@),
{
    let mut reader = csv::ReaderBuilder::new().has_headers(true).from_reader(text.as_bytes());
    let mut rows: Vec<Vec<String>> = Vec::new();
    for record in reader.records() {
        match record {
            Ok(rec) => rows.push(rec.iter().map(|f| f.to_string()).collect()),
            Err(_) => return None,
        }
    }
    Some(rows)
}

/// Field `i` of a record, empty when the record is shorter.
pub open spec fn field(rec: Seq<Seq<char>>, i: int) -> Seq<char> {
    if 0 <= i < rec.len() { rec[i] } else { Seq::empty() }
}

/// Midnight UTC of a year, month and day, in epoch seconds.
pub open spec fn midnight_of(t: (int, int, int)) -> int {
    day_number(Date { year: t.0 as i32, month: t.1 as u32, day: t.2 as u32 }) * 86400
}

/// A history row of one record: the date in field 0 (`%Y-%m-%d`) at
/// midnight UTC and the closing price in field 4, when both read.
pub open spec fn stooq_row(rec: Seq<Seq<char>>) -> Option<(int, Seq<char>)> {
    match parsed_ymd(field(rec, 0)) {
        Some(t) => if is_float_text(field(rec, 4)) { Some((midnight_of(t), field(rec, 4))) } else { None },
        None => None,
    }
}

/// The rows of the records that read, in record order.
pub open spec fn stooq_rows(recs: Seq<Seq<Seq<char>>>) -> Seq<(int, Seq<char>)>
    decreases recs.len(),
{
    if recs.len() == 0 {
        Seq::empty()
    } else {
        let prev = stooq_rows(recs.drop_last());
        match stooq_row(recs.last()) {
            Some(x) => prev.push(x),
            None => prev,
        }
    }
}

/// Where a row of time `t` goes in a list sorted by time: after every row
/// that is not later.
pub open spec fn insert_pos(s: Seq<(int, Seq<char>)>, t: int) -> int
    decreases s.len(),
{
    if s.len() == 0 {
        0
    } else if s.last().0 <= t {
        s.len() as int
    } else {
        insert_pos(s.drop_last(), t)
    }
}

/// A row put into its place in a list sorted by time.
pub open spec fn insert_by_time(s: Seq<(int, Seq<char>)>, x: (int, Seq<char>)) -> Seq<(int, Seq<char>)> {
    let p = insert_pos(s, x.0);
    s.take(p).push(x) + s.skip(p)
}

/// The rows sorted oldest first, rows of the same time kept in their order.
pub open spec fn sorted_oldest_first(rows: Seq<(int, Seq<char>)>) -> Seq<(int, Seq<char>)>
    decreases rows.len(),
{
    if rows.len() == 0 {
        Seq::empty()
    } else {
        insert_by_time(sorted_oldest_first(rows.drop_last()), rows.last())
    }
}

/// Rows in time order.
pub open spec fn oldest_first(s: Seq<(int, Seq<char>)>) -> bool {
    forall|i: int, j: int| 0 <= i < j < s.len() ==> s[i].0 <= s[j].0
}

/// History rows seen as plain values.
pub open spec fn rows_view(v: Seq<(i64, String)>) -> Seq<(int, Seq<char>)> {
    v.map_values(|p: (i64, String)| (p.0 as int, p.1@))
}

/// The row of one record, when its date and closing price read.
fn row_of(rec: &Vec<String>) -> (r: Option<(i64, String)>)
    ensures
        (match r {
            Some(p) => Some((p.0 as int, p.1@)),
            None => None,
        }) == stooq_row(rec@.map_values(|f: String| f@)),
{
    let ghost fields = rec@.map_values(|f: String| f@);
    let empty = "";
    proof {
        reveal_strlit("");
    }
    let date_text: &str = if rec.len() > 0 { rec[0].as_str() } else { empty };
    let close_text: &str = if rec.len() > 4 { rec[4].as_str() } else { empty };
    assert(date_text@ =~= field(fields, 0));
    assert(close_text@ =~= field(fields, 4));
    match parse_ymd(date_text) {
        Some(d) => {
            if float_syntax(close_text) {
                proof {
                    crate::calendar::lemma_day_number_bounds(d);
                }
                let ts: i64 = day_number_of(d) * 86400;
                Some((ts, owned(close_text)))
            } else {
                None
            }
        }
        None => None,
    }
}

/// Puts a row into its place in rows sorted by time.
fn insert_row(out: &mut Vec<(i64, String)>, x: (i64, String))
    ensures
        rows_view(final(out)@) == insert_by_time(rows_view(old(out)@), (x.0 as int, x.1@)),
{
    let ghost s = rows_view(out@);
    let mut j: usize = out.len();
    assert(s.take(j as int) =~= s);
    while j > 0 && out[j - 1].0 > x.0
        invariant
            j <= out.len(),
            s == rows_view(out@),
            insert_pos(s.take(j as int), x.0 as int) == insert_pos(s, x.0 as int),
        decreases j,
    {
        assert(s.take(j as int).drop_last() =~= s.take(j - 1));
        j = j - 1;
    }
    proof {
        if j > 0 {
            assert(s.take(j as int).last() == s[j - 1]);
        } else {
            assert(s.take(0) =~= Seq::<(int, Seq<char>)>::empty());
        }
        assert(s.take(j as int).len() == j);
    }
    out.insert(j, x);
    assert(rows_view(out@) =~= s.take(j as int).push((x.0 as int, x.1@)) + s.skip(j as int));
}

/// The daily history in Stooq's CSV (`Date,Open,High,Low,Close,Volume`):
/// each record whose date and closing price read, as midnight UTC of the
/// date and the closing price's text, sorted oldest first; an error when the
/// CSV reader reports one.
pub fn parse_stooq_history(text: &str) -> (r: Result<Vec<(i64, String)>, ()>)
    ensures
        r is Err <==> csv_records(text@) is None,
        r matches Ok(v) ==> rows_view(v@) == sorted_oldest_first(stooq_rows(csv_records(text@)->0)),
{
    let recs = match read_csv_records(text) {
        Some(r) => r,
        None => {
            return Err(());
        }
    };
    let ghost all = recs@.map_values(|rec: Vec<String>| rec@.map_values(|f: String| f@));
    let mut out: Vec<(i64, String)> = Vec::new();
    let mut i: usize = 0;
    while i < recs.len()
        invariant
            i <= recs.len(),
            all == recs@.map_values(|rec: Vec<String>| rec@.map_values(|f: String| f@)),
            rows_view(out@) == sorted_oldest_first(stooq_rows(all.take(i as int))),
        decreases recs.len() - i,
    {
        assert(all.take(i + 1).drop_last() =~= all.take(i as int));
        assert(all.take(i + 1).last() == all[i as int]);
        assert(all[i as int] == recs@[i as int]@.map_values(|f: String| f@));
        let ghost prev = stooq_rows(all.take(i as int));
        match row_of(&recs[i]) {
            Some(x) => {
                let ghost xv = (x.0 as int, x.1@);
                assert(stooq_rows(all.take(i + 1)) == prev.push(xv));
                assert(prev.push(xv).drop_last() =~= prev);
                assert(sorted_oldest_first(prev.push(xv)) == insert_by_time(sorted_oldest_first(prev), xv));
                insert_row(&mut out, x);
            }
            None => {
                assert(stooq_rows(all.take(i + 1)) == prev);
            }
        }
        i = i + 1;
    }
    assert(all.take(recs.len() as int) =~= all);
    Ok(out)
}

/// Where a row goes in rows sorted by time: every row before it is not
/// later, every row from it on is later.
proof fn lemma_insert_pos(s: Seq<(int, Seq<char>)>, t: int)
    requires
        oldest_first(s),
    ensures
        0 <= insert_pos(s, t) <= s.len(),
        forall|i: int| 0 <= i < insert_pos(s, t) ==> s[i].0 <= t,
        forall|i: int| insert_pos(s, t) <= i < s.len() ==> s[i].0 > t,
    decreases s.len(),
{
    if s.len() > 0 {
        if s.last().0 > t {
            let d = s.drop_last();
            assert(oldest_first(d));
            lemma_insert_pos(d, t);
            assert forall|i: int| insert_pos(s, t) <= i < s.len() implies s[i].0 > t by {
                if i < s.len() - 1 {
                    assert(s[i] == d[i]);
                }
            }
            assert forall|i: int| 0 <= i < insert_pos(s, t) implies s[i].0 <= t by {
                assert(s[i] == d[i]);
            }
        } else {
            assert forall|i: int| 0 <= i < insert_pos(s, t) implies s[i].0 <= t by {
                if i < s.len() - 1 {
                    assert(s[i].0 <= s[s.len() - 1].0);
                }
            }
        }
    }
}

/// The history rows always come out oldest first.
pub proof fn law_history_oldest_first(rows: Seq<(int, Seq<char>)>)
    ensures
        oldest_first(sorted_oldest_first(rows)),
        sorted_oldest_first(rows).len() == rows.len(),
    decreases rows.len(),
{
    if rows.len() > 0 {
        let prev = sorted_oldest_first(rows.drop_last());
        law_history_oldest_first(rows.drop_last());
        let x = rows.last();
        lemma_insert_pos(prev, x.0);
        let p = insert_pos(prev, x.0);
        let r = insert_by_time(prev, x);
        assert forall|i: int, j: int| 0 <= i < j < r.len() implies r[i].0 <= r[j].0 by {
            if j < p {
            } else if j == p {
                assert(r[j] == x);
            } else if i < p {
                assert(r[j] == prev[j - 1]);
            } else if i == p {
                assert(r[i] == x);
                assert(r[j] == prev[j - 1]);
            } else {
                assert(r[i] == prev[i - 1]);
                assert(r[j] == prev[j - 1]);
            }
        }
    }
}

} // verus!
