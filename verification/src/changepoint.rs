//! Structural-break alerts from the change points a detector reports.

use vstd::prelude::*;
use crate::calendar::{Date, day_number, day_number_of, day_month_year_text, push_day_month_year};
use crate::text::{owned, push_str};

verus! {

/// Outcome of change-point detection on a daily series.
#[derive(Debug)]
pub struct ChangepointResult {
    pub changepoints: Vec<usize>,
    pub latest_break: Option<usize>,
    pub alert: bool,
    pub alert_message: Option<String>,
}

/// Shortest series the detector is run on.
pub const MIN_SERIES_LEN: usize = 20;

/// Whether a series is long enough to run change-point detection on.
pub fn series_long_enough(len: usize) -> (r: bool)
    ensures
        r == (len >= MIN_SERIES_LEN),
{
    len >= MIN_SERIES_LEN
}

/// The reported change points strictly inside the series (the detector
/// always reports index 0), in reported order.
pub open spec fn interior_points(detected: Seq<usize>, series_len: int) -> Seq<usize>
    decreases detected.len(),
{
    if detected.len() == 0 {
        Seq::empty()
    } else {
        let rest = interior_points(detected.drop_last(), series_len);
        let idx = detected.last();
        if idx > 0 && idx < series_len { rest.push(idx) } else { rest }
    }
}

/// Reported change points always lie strictly inside the series.
pub proof fn law_points_are_interior(detected: Seq<usize>, series_len: int)
    ensures
        forall|k: int| 0 <= k < interior_points(detected, series_len).len() ==>
            0 < #[trigger] interior_points(detected, series_len)[k] < series_len,
    decreases detected.len(),
{
    if detected.len() > 0 {
        law_points_are_interior(detected.drop_last(), series_len);
        let rest = interior_points(detected.drop_last(), series_len);
        let r = interior_points(detected, series_len);
        assert forall|k: int| 0 <= k < r.len() implies 0 < #[trigger] r[k] < series_len by {
            if k < rest.len() {
                assert(r[k] == rest[k]);
            }
        }
    }
}

/// The alert fires when the latest break has a date no more than 14 days before today.
pub open spec fn break_alert(points: Seq<usize>, dates: Seq<Date>, today: Date) -> bool {
    points.len() > 0 && dates.len() > points.last() && day_number(today) - day_number(dates[points.last() as int]) <= 14
}

pub open spec fn alert_text(d: Date) -> Seq<char> {
    "Structural break detected on "@ + day_month_year_text(d)
        + ". Historical correlations may not hold — model recalibration recommended."@
}

/// The result for a series of `series_len` values, given what the detector
/// reported: nothing for series shorter than the minimum; otherwise the
/// interior change points, the latest of them, and an alert with its message
/// when that break is recent.
pub fn changepoint_result(series_len: usize, detected: &Vec<usize>, series_dates: &Vec<Date>, today: Date) -> (r: ChangepointResult)
    requires
        today.valid(),
        forall|i: int| 0 <= i < series_dates.len() ==> (#[trigger] series_dates@[i]).valid(),
    ensures
        series_len < MIN_SERIES_LEN ==> r.changepoints@.len() == 0 && r.latest_break is None && !r.alert
            && r.alert_message is None,
        series_len >= MIN_SERIES_LEN ==> {
            let pts = interior_points(detected@, series_len as int);
            &&& r.changepoints@ == pts
            &&& r.latest_break == (if pts.len() > 0 { Some(pts.last()) } else { None::<usize> })
            &&& r.alert == break_alert(pts, series_dates@, today)
            &&& (r.alert_message is Some <==> r.alert)
            &&& (r.alert ==> r.alert_message->0@ == alert_text(series_dates@[pts.last() as int]))
        },
        r.alert_message matches Some(m) ==> r.alert && m@ == alert_text(series_dates@[r.latest_break->0 as int]),
        r.alert_message is None ==> !r.alert,
{
    if !series_long_enough(series_len) {
        return ChangepointResult { changepoints: Vec::new(), latest_break: None, alert: false, alert_message: None };
    }
    let mut points: Vec<usize> = Vec::new();
    let mut i: usize = 0;
    while i < detected.len()
        invariant
            i <= detected.len(),
            points@ == interior_points(detected@.take(i as int), series_len as int),
        decreases detected.len() - i,
    {
        assert(detected@.take(i + 1).drop_last() =~= detected@.take(i as int));
        let idx = detected[i];
        if idx > 0 && idx < series_len {
            points.push(idx);
        }
        i = i + 1;
    }
    assert(detected@.take(detected.len() as int) =~= detected@);
    let latest_break = if points.len() > 0 { Some(points[points.len() - 1]) } else { None };
    let alert = match latest_break {
        Some(idx) => {
            if series_dates.len() > idx {
                let gap = day_number_of(today) - day_number_of(series_dates[idx]);
                gap <= 14
            } else {
                false
            }
        }
        None => false,
    };
    let alert_message = if alert {
        match latest_break {
            Some(idx) => {
                let mut m = owned("Structural break detected on ");
                push_day_month_year(&mut m, series_dates[idx]);
                push_str(&mut m, ". Historical correlations may not hold — model recalibration recommended.");
                Some(m)
            }
            None => None,
        }
    } else {
        None
    };
    ChangepointResult { changepoints: points, latest_break, alert, alert_message }
}

} // verus!
