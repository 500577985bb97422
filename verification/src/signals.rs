//! The structural-break signal of the weekly signal summary.

use vstd::prelude::*;
use crate::calendar::{Date, add_days, date_plus, date_plus_defined, iso_text, iso_string};
use crate::changepoint::ChangepointResult;
use crate::text::{decimal, owned, push_char, push_decimal, push_str};

verus! {

/// A recent structural break in a ticker's series.
#[derive(Debug)]
pub struct StructuralBreak {
    pub ticker: String,
    pub detected_date: String,
    pub days_ago: i64,
}

/// `a - b` clamped to the range of `i64`.
pub open spec fn saturating_diff(a: int, b: int) -> int {
    if a - b > i64::MAX { i64::MAX as int } else if a - b < i64::MIN { i64::MIN as int } else { a - b }
}

/// Rust's `{}` for a signed integer.
pub open spec fn signed_decimal(v: int) -> Seq<char> {
    if v >= 0 { decimal(v as nat) } else { seq!['-'] + decimal((-v) as nat) }
}

/// How many days ago the latest break lies: the number of change points minus
/// its index, saturating.
pub open spec fn break_days_ago(cp: ChangepointResult) -> int {
    saturating_diff((cp.changepoints@.len() as i64) as int, (cp.latest_break->0 as i64) as int)
}

pub open spec fn break_summary_text(days_ago: int) -> Seq<char> {
    "structural_break:EUA:"@ + signed_decimal(days_ago) + "d_ago"@
}

/// The signal's ticker, age in days, detected date and summary line, when
/// the change-point result carries an alert for a latest break; the break is
/// dated `days_ago` days before `today`.
pub open spec fn break_signal(cp: ChangepointResult, today: Date) -> Option<(Seq<char>, int, Seq<char>, Seq<char>)> {
    if cp.alert && cp.latest_break is Some {
        let days = break_days_ago(cp);
        Some(("EUA"@, days, iso_text(date_plus(today, -days)), break_summary_text(days)))
    } else {
        None
    }
}

/// A computed signal seen as plain values.
pub open spec fn signal_view(r: Option<(StructuralBreak, String)>) -> Option<(Seq<char>, int, Seq<char>, Seq<char>)> {
    match r {
        Some(p) => Some((p.0.ticker@, p.0.days_ago as int, p.0.detected_date@, p.1@)),
        None => None,
    }
}

/// The structural-break signal and its summary line. Pure: the result is
/// fixed by the change-point result and by `today`, the day the caller
/// counts the break back from.
pub fn structural_break_signal(cp: &ChangepointResult, today: Date) -> (r: Option<(StructuralBreak, String)>)
    requires
        today.valid(),
        cp.alert && cp.latest_break is Some ==> date_plus_defined(today, -break_days_ago(*cp)),
    ensures
        signal_view(r) == break_signal(*cp, today),
{
    if !cp.alert {
        return None;
    }
    let idx = match cp.latest_break {
        Some(i) => i,
        None => {
            return None;
        }
    };
    let count = #[verifier::truncate] (cp.changepoints.len() as i64);
    let back = #[verifier::truncate] (idx as i64);
    let days_ago: i64 = if back < 0 && count > i64::MAX + back {
        i64::MAX
    } else if back > 0 && count < i64::MIN + back {
        i64::MIN
    } else {
        count - back
    };
    assert(days_ago == break_days_ago(*cp));
    let mut summary = owned("structural_break:EUA:");
    if days_ago >= 0 {
        push_decimal(&mut summary, days_ago as u64);
    } else {
        push_char(&mut summary, '-');
        push_decimal(&mut summary, (-(days_ago as i128)) as u64);
    }
    push_str(&mut summary, "d_ago");
    assert(summary@ =~= break_summary_text(days_ago as int));
    proof {
        crate::calendar::lemma_date_plus_span(today, -(days_ago as int));
    }
    let detected = match add_days(today, -days_ago) {
        Some(d) => d,
        None => today,
    };
    let brk = StructuralBreak { ticker: owned("EUA"), detected_date: iso_string(detected), days_ago };
    Some((brk, summary))
}

/// A detected break lies exactly its age in days before the day it is
/// counted back from.
pub proof fn law_break_dated_back(cp: ChangepointResult, today: Date)
    requires
        cp.alert && cp.latest_break is Some,
        date_plus_defined(today, -break_days_ago(cp)),
    ensures
        break_signal(cp, today) matches Some(v)
            && crate::calendar::day_number(date_plus(today, -v.1)) == crate::calendar::day_number(today) - v.1,
{
    crate::calendar::lemma_day_number_plus(today, -break_days_ago(cp));
}

} // verus!
