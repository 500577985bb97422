use plentra::calendar::Date;
use plentra::stooq::{parse_stooq_history, stooq_history_url};

fn midnight(y: i32, m: u32, d: u32) -> i64 {
    chrono::NaiveDate::from_ymd_opt(y, m, d).unwrap().and_hms_opt(0, 0, 0).unwrap().and_utc().timestamp()
}

#[test]
fn history_url_spans_the_requested_days() {
    let end = Date::from_ymd_opt(2026, 3, 28).unwrap();
    assert_eq!(
        stooq_history_url("tg.f", end, 30).unwrap(),
        "https://stooq.com/q/d/l/?s=tg.f&d1=20260226&d2=20260328&i=d"
    );
    assert_eq!(stooq_history_url("ck.f", end, 0).unwrap(), "https://stooq.com/q/d/l/?s=ck.f&d1=20260328&d2=20260328&i=d");
    assert!(stooq_history_url("ck.f", end, 1_000_000_000).is_none());
}

#[test]
fn history_rows_read_date_and_close() {
    let csv = "Date,Open,High,Low,Close,Volume\n2026-03-26,55.1,56.0,54.9,55.5,100\n2026-03-27,55.9,57.1,54.1,54.527,431348\n";
    let rows = parse_stooq_history(csv).unwrap();
    assert_eq!(rows, vec![(midnight(2026, 3, 26), "55.5".to_string()), (midnight(2026, 3, 27), "54.527".to_string())]);
    assert_eq!(rows[1].1.parse::<f64>().unwrap(), 54.527);
}

#[test]
fn history_rows_come_out_oldest_first() {
    let csv = "Date,Open,High,Low,Close,Volume\n2026-03-27,1,1,1,2.0,1\n2026-03-25,1,1,1,1.0,1\n2026-03-27,1,1,1,3.0,1\n";
    let rows = parse_stooq_history(csv).unwrap();
    assert_eq!(
        rows,
        vec![
            (midnight(2026, 3, 25), "1.0".to_string()),
            (midnight(2026, 3, 27), "2.0".to_string()),
            (midnight(2026, 3, 27), "3.0".to_string()),
        ]
    );
}

#[test]
fn unreadable_rows_are_skipped() {
    let csv = "Date,Open,High,Low,Close,Volume\nnot a date,1,1,1,2.0,1\n2026-03-25,1,1,1,n/a,1\n2026-03-26,1,1,1,7,1\n";
    let rows = parse_stooq_history(csv).unwrap();
    assert_eq!(rows, vec![(midnight(2026, 3, 26), "7".to_string())]);
    assert_eq!(parse_stooq_history("Date,Open,High,Low,Close,Volume\n").unwrap(), vec![]);
}

#[test]
fn ragged_csv_is_an_error() {
    let csv = "Date,Open,High,Low,Close,Volume\n2026-03-26,1,1\n";
    assert!(parse_stooq_history(csv).is_err());
}
