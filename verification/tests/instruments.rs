use plentra::instruments::{instruments, Dataset};

#[test]
fn test_instrument_datasets() {
    let list = instruments();
    assert_eq!(list[0].name, "TTF");
    assert!(matches!(list[0].dataset, Dataset::NdexImpact));
    assert_eq!(list[2].name, "ARA");
    assert!(matches!(list[2].dataset, Dataset::IfeuImpact));
}

use plentra::calendar::Date;
use plentra::instruments::{css_contract_symbols, ticker_for_symbol, unit_for_symbol};

#[test]
fn instrument_table() {
    let list = instruments();
    let names: Vec<&str> = list.iter().map(|i| i.name).collect();
    assert_eq!(names, vec!["TTF", "EUA", "ARA", "GAB"]);
    let symbols: Vec<&str> = list.iter().map(|i| i.symbol).collect();
    assert_eq!(symbols, vec!["TFM.FUT", "ECF.FUT", "ATW.FUT", "GAB.FUT"]);
    let units: Vec<&str> = list.iter().map(|i| i.unit).collect();
    assert_eq!(units, vec!["EUR/MWh", "EUR/t", "USD/t", "EUR/MWh"]);
    assert_eq!(Dataset::NdexImpact.as_str(), "NDEX.IMPACT");
    assert_eq!(Dataset::IfeuImpact.as_str(), "IFEU.IMPACT");
}

#[test]
fn tickers_and_units_from_raw_symbols() {
    assert_eq!(ticker_for_symbol("TFM FMJ0026!"), "TTF");
    assert_eq!(ticker_for_symbol("ECF FMZ0026!"), "EUA");
    assert_eq!(ticker_for_symbol("ATW FMK0026!"), "ARA");
    assert_eq!(ticker_for_symbol("GAB FMM0026!"), "GAB");
    assert_eq!(ticker_for_symbol("TF"), "UNKNOWN");
    assert_eq!(unit_for_symbol("TFM.FUT"), "EUR/MWh");
    assert_eq!(unit_for_symbol("GAB"), "EUR/MWh");
    assert_eq!(unit_for_symbol("ECF FMZ0026!"), "EUR/t");
    assert_eq!(unit_for_symbol("ATW"), "USD/t");
    assert_eq!(unit_for_symbol("XYZ"), "");
}

fn d(y: i32, m: u32, day: u32) -> Date {
    Date::from_ymd_opt(y, m, day).unwrap()
}

#[test]
fn contract_symbols_for_one_month() {
    let v = css_contract_symbols(d(2026, 3, 10), d(2026, 3, 20));
    let raw: Vec<&str> = v.iter().map(|c| c.raw_symbol.as_str()).collect();
    assert_eq!(
        raw,
        vec![
            "ATW FMJ0026!", "ATW FMK0026!", "ATW FMM0026!", "ECF FMZ0026!", "GAB FMJ0026!",
            "GAB FMK0026!", "GAB FMM0026!", "TFM FMJ0026!", "TFM FMK0026!", "TFM FMM0026!",
        ]
    );
    assert!(matches!(v[0].dataset, Dataset::IfeuImpact));
    assert_eq!(v[0].ticker, "ARA");
    assert_eq!(v[0].unit, "USD/t");
    assert!(matches!(v[3].dataset, Dataset::NdexImpact));
    assert_eq!(v[3].ticker, "EUA");
    assert_eq!(v[3].unit, "EUR/t");
    assert_eq!(v[9].ticker, "TTF");
    assert_eq!(v[4].ticker, "GAB");
}

#[test]
fn contract_symbols_across_a_year_end() {
    let v = css_contract_symbols(d(2026, 11, 5), d(2026, 12, 1));
    let raw: Vec<&str> = v.iter().map(|c| c.raw_symbol.as_str()).collect();
    assert_eq!(v.len(), 14);
    assert_eq!(raw[0], "ATW FMF0027!");
    assert!(raw.contains(&"TFM FMZ0026!"));
    assert!(raw.contains(&"ECF FMZ0026!"));
    assert!(raw.contains(&"ECF FMZ0027!"));
    let mut sorted = raw.clone();
    sorted.sort();
    sorted.dedup();
    assert_eq!(raw, sorted);
}

#[test]
fn end_before_start_still_lists_carbon() {
    // No months to walk; the carbon contracts of the years still come out.
    let v = css_contract_symbols(d(2026, 6, 1), d(2026, 1, 1));
    let raw: Vec<&str> = v.iter().map(|c| c.raw_symbol.as_str()).collect();
    assert_eq!(raw, vec!["ECF FMZ0026!"]);
}
