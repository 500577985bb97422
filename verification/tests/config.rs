use plentra::config::{parse_unsigned_text, split_trimmed, Config, DEFAULT_PORT, DEFAULT_TTL_ENTSOE, DEFAULT_TTL_FUELS};

fn s(v: &str) -> Option<String> {
    Some(v.to_string())
}

#[test]
fn defaults_when_nothing_is_set() {
    let c = Config::from_values(None, None, None, None, None, None, None, None);
    assert_eq!(c.port, DEFAULT_PORT);
    assert_eq!(c.port, 8080);
    assert_eq!(c.cache_ttl_fuels, DEFAULT_TTL_FUELS);
    assert_eq!(c.cache_ttl_fuels, 900);
    assert_eq!(c.cache_ttl_entsoe, DEFAULT_TTL_ENTSOE);
    assert_eq!(c.cache_ttl_entsoe, 3600);
    assert_eq!(c.database_url, None);
    assert_eq!(
        c.allowed_origins,
        vec![
            "http://localhost:3000".to_string(),
            "https://plentra.vercel.app".to_string(),
            "https://frontend-gamma-pink-76.vercel.app".to_string(),
        ]
    );
}

#[test]
fn values_are_parsed_like_str_parse() {
    let c = Config::from_values(
        s("9000"),
        s("postgres://db"),
        s("tok"),
        s("key"),
        s("dbn"),
        s("+60"),
        s("abc"),
        s(" https://a.example , https://b.example,"),
    );
    assert_eq!(c.port, 9000);
    assert_eq!(c.database_url, s("postgres://db"));
    assert_eq!(c.entsoe_token, s("tok"));
    assert_eq!(c.anthropic_api_key, s("key"));
    assert_eq!(c.databento_api_key, s("dbn"));
    assert_eq!(c.cache_ttl_fuels, 60);
    assert_eq!(c.cache_ttl_entsoe, 3600);
    assert_eq!(
        c.allowed_origins,
        vec!["https://a.example".to_string(), "https://b.example".to_string(), String::new()]
    );
}

#[test]
fn port_out_of_range_falls_back() {
    let c = Config::from_values(s("70000"), None, None, None, None, None, None, None);
    assert_eq!(c.port, 8080);
    let c = Config::from_values(s("65535"), None, None, None, None, None, None, None);
    assert_eq!(c.port, 65535);
}

#[test]
fn parse_agrees_with_std() {
    for t in ["0", "42", "+7", "", "+", "-1", " 5", "5 ", "18446744073709551615", "18446744073709551616", "00012"] {
        assert_eq!(parse_unsigned_text(t, u64::MAX), t.parse::<u64>().ok(), "{:?}", t);
        assert_eq!(parse_unsigned_text(t, u16::MAX as u64), t.parse::<u16>().ok().map(|v| v as u64), "{:?}", t);
    }
}

#[test]
fn splitting_trims_each_piece() {
    assert_eq!(split_trimmed("a, b ,c"), vec!["a".to_string(), "b".to_string(), "c".to_string()]);
    assert_eq!(split_trimmed(""), vec![String::new()]);
    assert_eq!(split_trimmed(",\t"), vec![String::new(), String::new()]);
    let v: Vec<String> = " x , y".split(',').map(|p| p.trim().to_string()).collect();
    assert_eq!(split_trimmed(" x , y"), v);
}
