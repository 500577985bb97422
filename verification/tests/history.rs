use plentra::history::{reserve_column, resolution_to_bucket, resolve_history, uses_pse_series, HistoryKind, HistoryParams};

#[test]
fn test_resolution_to_bucket_mapping() {
    assert_eq!(resolution_to_bucket("daily"), "1 day");
    assert_eq!(resolution_to_bucket("hourly"), "1 hour");
    assert_eq!(resolution_to_bucket("monthly"), "1 month");
    assert_eq!(resolution_to_bucket("weekly"), "1 week");
    assert_eq!(resolution_to_bucket("15min"), "15 minutes");
    assert_eq!(resolution_to_bucket("garbage"), "1 day"); // default
}

fn empty() -> HistoryParams {
    HistoryParams { ticker: None, source: None, product: None, from: None, to: None, resolution: None }
}

#[test]
fn history_defaults_per_endpoint() {
    let q = resolve_history(HistoryKind::Fuels, &empty(), "2026-03-29");
    assert_eq!(q.label, "TTF");
    assert_eq!(q.resolution, "daily");
    assert_eq!(q.bucket, "1 day");
    assert_eq!(q.from, "2025-01-01");
    assert_eq!(q.to, "2026-03-29");
    let q = resolve_history(HistoryKind::Curtailment, &empty(), "2026-03-29");
    assert_eq!(q.label, "curtailment");
    assert_eq!(q.from, "2026-01-01");
    let q = resolve_history(HistoryKind::Reserves, &empty(), "x");
    assert_eq!(q.label, "afrr_g");
    let q = resolve_history(HistoryKind::Prices, &empty(), "x");
    assert_eq!(q.label, "PSE");
    let q = resolve_history(HistoryKind::Spreads, &empty(), "x");
    assert_eq!(q.label, "spreads");
}

#[test]
fn history_given_values_win() {
    let p = HistoryParams {
        ticker: Some("EUA".to_string()),
        source: None,
        product: None,
        from: Some("2024-06-01".to_string()),
        to: Some("2024-07-01".to_string()),
        resolution: Some("weekly".to_string()),
    };
    let q = resolve_history(HistoryKind::Fuels, &p, "2026-03-29");
    assert_eq!(q.label, "EUA");
    assert_eq!(q.bucket, "1 week");
    assert_eq!(q.from, "2024-06-01");
    assert_eq!(q.to, "2024-07-01");
}

#[test]
fn reserve_columns_are_whitelisted() {
    assert_eq!(reserve_column("fcr_d"), "fcr_d_pln_mw");
    assert_eq!(reserve_column("rr_g"), "rr_g_pln_mw");
    assert_eq!(reserve_column("drop table"), "afrr_g_pln_mw");
    assert!(uses_pse_series("PSE"));
    assert!(!uses_pse_series("ENTSOE"));
}
