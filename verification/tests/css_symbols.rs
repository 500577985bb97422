use plentra::calendar::Date;
use plentra::css::{get_ecf_symbol, get_ice_symbol};

fn d(y: i32, m: u32, day: u32) -> Date {
    Date::from_ymd_opt(y, m, day).unwrap()
}

#[test]
fn test_tfm_april_from_march() {
    assert_eq!(get_ice_symbol("TFM", 1, d(2026, 3, 29)), "TFM FMJ0026!");
}

#[test]
fn test_tfm_may_from_march() {
    assert_eq!(get_ice_symbol("TFM", 2, d(2026, 3, 29)), "TFM FMK0026!");
}

#[test]
fn test_gab_june_from_march() {
    assert_eq!(get_ice_symbol("GAB", 3, d(2026, 3, 29)), "GAB FMM0026!");
}

#[test]
fn test_ecf_always_december() {
    assert_eq!(get_ecf_symbol(d(2026, 3, 29)), "ECF FMZ0026!");
    assert_eq!(get_ecf_symbol(d(2026, 11, 15)), "ECF FMZ0026!");
}

#[test]
fn test_year_rollover() {
    // November + 2 months = January 2027
    assert_eq!(get_ice_symbol("TFM", 2, d(2026, 11, 15)), "TFM FMF0027!");
}

use plentra::css::{add_months, css_symbols, days_in_month, month_to_ice_code, price_rows, two_digit_year};

#[test]
fn ice_month_codes() {
    let codes: Vec<char> = (1..=12).map(|m| month_to_ice_code(m).unwrap()).collect();
    assert_eq!(codes, vec!['F', 'G', 'H', 'J', 'K', 'M', 'N', 'Q', 'U', 'V', 'X', 'Z']);
    assert_eq!(month_to_ice_code(0), None);
    assert_eq!(month_to_ice_code(13), None);
}

#[test]
fn adding_months_clamps_the_day() {
    assert_eq!(add_months(d(2026, 1, 31), 1), d(2026, 2, 28));
    assert_eq!(add_months(d(2024, 1, 31), 1), d(2024, 2, 29));
    assert_eq!(add_months(d(2026, 3, 29), 10), d(2027, 1, 29));
    assert_eq!(add_months(d(2026, 3, 29), 0), d(2026, 3, 29));
    assert_eq!(days_in_month(2026, 2), 28);
    assert_eq!(days_in_month(2026, 12), 31);
}

#[test]
fn two_digit_years_truncate() {
    assert_eq!(two_digit_year(2026), 26);
    assert_eq!(two_digit_year(2100), 0);
    assert_eq!(two_digit_year(-1), -1);
    assert_eq!(two_digit_year(-2026), -26);
}

#[test]
fn symbols_of_a_calculation_date() {
    let s = css_symbols(d(2026, 3, 29));
    assert_eq!(s.gas, vec!["TFM FMJ0026!", "TFM FMK0026!", "TFM FMM0026!"]);
    assert_eq!(s.power, vec!["GAB FMJ0026!", "GAB FMK0026!", "GAB FMM0026!"]);
    assert_eq!(s.carbon, "ECF FMZ0026!");
    assert_eq!(s.all_symbols().len(), 7);
    assert_eq!(s.all_symbols()[6], "ECF FMZ0026!");
}

#[test]
fn rows_price_each_symbol_with_its_last_quote() {
    let wanted = vec!["A".to_string(), "B".to_string()];
    let rows = vec!["B".to_string(), "A".to_string(), "B".to_string(), "C".to_string()];
    assert_eq!(price_rows(&wanted, &rows), Ok(vec![1, 2]));
    let wanted = vec!["D".to_string(), "A".to_string(), "E".to_string()];
    assert_eq!(price_rows(&wanted, &rows), Err(vec!["D".to_string(), "E".to_string()]));
    assert_eq!(price_rows(&vec![], &rows), Ok(vec![]));
}
