use plentra::entsoe::{
    parse_forecast_quantities, parse_generation_quantities, parse_hourly_generation_readings,
    parse_hourly_load_quantities, parse_load_quantity,
};
use plentra::text::float_syntax;
use std::collections::HashMap;

fn numbers(pairs: &[(String, String)]) -> HashMap<String, f64> {
    pairs.iter().map(|(k, v)| (k.clone(), v.parse::<f64>().unwrap())).collect()
}

#[test]
fn test_parse_generation_xml() {
    let xml = r#"<?xml version="1.0" encoding="UTF-8"?>
<GL_MarketDocument>
  <TimeSeries>
    <MktPSRType><psrType>B19</psrType></MktPSRType>
    <Period>
      <Point><position>1</position><quantity>3500</quantity></Point>
    </Period>
  </TimeSeries>
  <TimeSeries>
    <MktPSRType><psrType>B16</psrType></MktPSRType>
    <Period>
      <Point><position>1</position><quantity>1200</quantity></Point>
    </Period>
  </TimeSeries>
</GL_MarketDocument>"#;
    let gen = numbers(&parse_generation_quantities(xml).unwrap());
    let get = |k: &str| gen.get(k).copied().unwrap_or(0.0);
    let wind = get("B19") + get("B18");
    let solar = get("B16");
    assert!((wind - 3500.0).abs() < 0.01);
    assert!((solar - 1200.0).abs() < 0.01);
}

#[test]
fn test_parse_load_xml() {
    let xml = r#"<?xml version="1.0" encoding="UTF-8"?>
<GL_MarketDocument>
  <TimeSeries>
    <Period>
      <Point><position>1</position><quantity>20500</quantity></Point>
      <Point><position>2</position><quantity>21000</quantity></Point>
    </Period>
  </TimeSeries>
</GL_MarketDocument>"#;
    let load: f64 = parse_load_quantity(xml).unwrap().parse().unwrap();
    assert!((load - 21000.0).abs() < 0.01); // takes last value
}

#[test]
fn generation_keeps_last_quantity_and_needs_data() {
    let xml = "<D><TimeSeries><psrType>B02</psrType><quantity>10</quantity><quantity>x</quantity>\
               <quantity>12.5</quantity></TimeSeries><TimeSeries><psrType>B02</psrType>\
               <quantity>7</quantity></TimeSeries><TimeSeries><quantity>9</quantity></TimeSeries></D>";
    let pairs = parse_generation_quantities(xml).unwrap();
    assert_eq!(pairs, vec![("B02".to_string(), "12.5".to_string()), ("B02".to_string(), "7".to_string())]);
    assert_eq!(numbers(&pairs).get("B02"), Some(&7.0));
    assert_eq!(parse_generation_quantities("<D><TimeSeries><quantity>1</quantity></TimeSeries></D>"), None);
    assert_eq!(parse_generation_quantities("not xml at all <"), None);
}

#[test]
fn load_ignores_unreadable_quantities() {
    assert_eq!(parse_load_quantity("<a><quantity>5</quantity><quantity>n/a</quantity></a>"), Some("5".to_string()));
    assert_eq!(parse_load_quantity("<a><position>5</position></a>"), None);
}

#[test]
fn forecast_splits_wind_and_solar() {
    let xml = "<D><TimeSeries><psrType>B19</psrType><quantity>100</quantity><quantity>200</quantity></TimeSeries>\
               <TimeSeries><psrType>B18</psrType><quantity>50</quantity></TimeSeries>\
               <TimeSeries><psrType>B16</psrType><quantity>30</quantity></TimeSeries>\
               <TimeSeries><psrType>B02</psrType><quantity>999</quantity></TimeSeries></D>";
    let (wind, solar) = parse_forecast_quantities(xml);
    assert_eq!(wind, vec!["100", "200", "50"]);
    assert_eq!(solar, vec!["30"]);
}

#[test]
fn hourly_generation_readings_by_position() {
    let xml = "<D><TimeSeries><psrType>B19</psrType><Point><position>1</position><quantity>10</quantity></Point>\
               <Point><position>25</position><quantity>11</quantity></Point>\
               <Point><position>2</position><quantity>12</quantity></Point></TimeSeries>\
               <TimeSeries><Point><position>3</position><quantity>13</quantity></Point></TimeSeries></D>";
    let v = parse_hourly_generation_readings(xml);
    assert_eq!(
        v,
        vec![(0, "B19".to_string(), "10".to_string()), (1, "B19".to_string(), "12".to_string())]
    );
}

#[test]
fn hourly_load_sorted_first_per_hour() {
    let xml = "<D><Point><position>3</position><quantity>30</quantity></Point>\
               <Point><position>1</position><quantity>10</quantity></Point>\
               <Point><position>3</position><quantity>31</quantity></Point>\
               <Point><position>0</position><quantity>5</quantity></Point>\
               <Point><position>x</position><quantity>7</quantity></Point></D>";
    let v = parse_hourly_load_quantities(xml);
    assert_eq!(v, vec![(0, "10".to_string()), (2, "30".to_string())]);
}

#[test]
fn float_syntax_agrees_with_std() {
    let cases = [
        "", "+", "-", "1", "-1", "+1.5", "1.", ".5", ".", "1e5", "1E5", "1e", "1e+", "1e+5", "1e-5", "e5",
        "1.2.3", "1..2", "inf", "-inf", "+Infinity", "INF", "infinit", "nan", "NaN", "-nan", "nana", " 1",
        "1 ", "1_000", "0x10", "1e5.5", "12a", "١", "+-1", "--1", "3500", "21000", "1.5E-3", "E", "infe",
    ];
    for c in cases {
        assert_eq!(float_syntax(c), c.parse::<f64>().is_ok(), "{:?}", c);
    }
}

use plentra::entsoe::cri_level;

#[test]
fn cri_levels() {
    assert_eq!(cri_level(0), "LOW");
    assert_eq!(cri_level(33), "LOW");
    assert_eq!(cri_level(34), "MODERATE");
    assert_eq!(cri_level(59), "MODERATE");
    assert_eq!(cri_level(60), "ELEVATED");
    assert_eq!(cri_level(79), "ELEVATED");
    assert_eq!(cri_level(80), "CRITICAL");
    assert_eq!(cri_level(100), "CRITICAL");
}

use plentra::entsoe::parse_hourly_prices;

#[test]
fn day_ahead_prices_by_hour() {
    let xml = "<Publication_MarketDocument><TimeSeries><Period>\
               <Point><position>2</position><price.amount>101.5</price.amount></Point>\
               <Point><position>1</position><price.amount>99.25</price.amount></Point>\
               <Point><position>2</position><price.amount>150</price.amount></Point>\
               <Point><position>3</position><quantity>5</quantity></Point>\
               </Period></TimeSeries></Publication_MarketDocument>";
    assert_eq!(parse_hourly_prices(xml), vec![(0, "99.25".to_string()), (1, "101.5".to_string())]);
}
