use plentra::calendar::Date;
use plentra::changepoint::ChangepointResult;
use plentra::signals::structural_break_signal;

fn cp(points: Vec<usize>, latest: Option<usize>, alert: bool) -> ChangepointResult {
    ChangepointResult { changepoints: points, latest_break: latest, alert, alert_message: None }
}

#[test]
fn no_signal_without_alert() {
    let today = Date::from_ymd_opt(2026, 3, 28).unwrap();
    assert!(structural_break_signal(&cp(vec![5], Some(5), false), today).is_none());
    assert!(structural_break_signal(&cp(vec![], None, true), today).is_none());
}

#[test]
fn signal_counts_days_from_the_point_list() {
    let today = Date::from_ymd_opt(2026, 3, 28).unwrap();
    let (brk, line) = structural_break_signal(&cp(vec![3, 8, 9], Some(9), true), today).unwrap();
    // Three change points, latest index 9: days_ago = 3 - 9 = -6.
    assert_eq!(brk.ticker, "EUA");
    assert_eq!(brk.days_ago, -6);
    assert_eq!(brk.detected_date, "2026-04-03");
    assert_eq!(line, "structural_break:EUA:-6d_ago");
    let (brk, line) = structural_break_signal(&cp(vec![1, 2, 3, 4, 5], Some(2), true), today).unwrap();
    assert_eq!(brk.days_ago, 3);
    assert_eq!(brk.detected_date, "2026-03-25");
    assert_eq!(line, "structural_break:EUA:3d_ago");
}

#[test]
fn same_inputs_give_the_same_signal() {
    let today = Date::from_ymd_opt(2026, 3, 28).unwrap();
    let c = cp(vec![1, 2, 3, 4, 5], Some(2), true);
    let (a, la) = structural_break_signal(&c, today).unwrap();
    let (b, lb) = structural_break_signal(&c, today).unwrap();
    assert_eq!(a.detected_date, b.detected_date);
    assert_eq!(la, lb);
    let next = Date::from_ymd_opt(2026, 3, 29).unwrap();
    let (d, _) = structural_break_signal(&c, next).unwrap();
    assert_eq!(d.detected_date, "2026-03-26");
}
