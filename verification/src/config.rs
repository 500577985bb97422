//! Service configuration from its environment values.

use vstd::prelude::*;
use crate::text::{chars_of, decimal, digit_char, owned, trimmed, trimmed_string};

verus! {

/// Service configuration.
#[derive(Debug, Clone)]
pub struct Config {
    pub port: u16,
    pub database_url: Option<String>,
    pub entsoe_token: Option<String>,
    pub anthropic_api_key: Option<String>,
    pub databento_api_key: Option<String>,
    pub cache_ttl_fuels: u64,
    pub cache_ttl_entsoe: u64,
    pub allowed_origins: Vec<String>,
}

pub open spec fn is_digit(c: char) -> bool {
    '0' <= c && c <= '9'
}

/// Value of a string of decimal digits.
pub open spec fn digits_value(s: Seq<char>) -> int
    decreases s.len(),
{
    if s.len() == 0 {
        0
    } else {
        digits_value(s.drop_last()) * 10 + ((s.last() as u32) as int - 48)
    }
}

/// The text after an optional leading `+`.
pub open spec fn unsigned_body(s: Seq<char>) -> Seq<char> {
    if s.len() > 0 && s[0] == '+' { s.drop_first() } else { s }
}

pub open spec fn all_digits(s: Seq<char>) -> bool {
    forall|i: int| 0 <= i < s.len() ==> is_digit(#[trigger] s[i])
}

/// What parsing an unsigned integer no larger than `max` gives: an optional
/// `+`, then one or more ASCII digits whose value fits.
pub open spec fn parse_unsigned(s: Seq<char>, max: int) -> Option<int> {
    let body = unsigned_body(s);
    if body.len() > 0 && all_digits(body) && digits_value(body) <= max {
        Some(digits_value(body))
    } else {
        None
    }
}

proof fn lemma_digits_value_grows(s: Seq<char>, i: int)
    requires
        0 <= i <= s.len(),
        forall|k: int| 0 <= k < s.len() ==> is_digit(#[trigger] s[k]),
    ensures
        digits_value(s.take(i)) <= digits_value(s),
        0 <= digits_value(s.take(i)),
    decreases s.len() - i,
{
    if i < s.len() {
        lemma_digits_value_grows(s.drop_last(), i);
        assert(s.drop_last().take(i) =~= s.take(i));
        assert(is_digit(s.last()));
        lemma_digits_value_nonneg(s.drop_last());
    } else {
        assert(s.take(i) =~= s);
        lemma_digits_value_nonneg(s);
    }
}

proof fn lemma_digits_value_nonneg(s: Seq<char>)
    requires
        forall|k: int| 0 <= k < s.len() ==> is_digit(#[trigger] s[k]),
    ensures
        0 <= digits_value(s),
    decreases s.len(),
{
    if s.len() > 0 {
        assert(is_digit(s.last()));
        lemma_digits_value_nonneg(s.drop_last());
    }
}

/// Parses an unsigned decimal no larger than `max`, as `str::parse` does for
/// unsigned integers of that range.
pub fn parse_unsigned_text(s: &str, max: u64) -> (r: Option<u64>)
    ensures
        r matches Some(v) ==> parse_unsigned(s@, max as int) == Some(v as int),
        r is None ==> parse_unsigned(s@, max as int) is None,
{
    let cs = chars_of(s);
    let start: usize = if cs.len() > 0 && cs[0] == '+' { 1 } else { 0 };
    let ghost body = unsigned_body(s@);
    assert(body =~= cs@.skip(start as int));
    if start == cs.len() {
        return None;
    }
    let mut acc: u128 = 0;
    let mut i: usize = start;
    while i < cs.len()
        invariant
            cs@ == s@,
            body == cs@.skip(start as int),
            body == unsigned_body(s@),
            start <= i <= cs.len(),
            forall|k: int| 0 <= k < i - start ==> is_digit(#[trigger] body[k]),
            acc == digits_value(body.take(i - start)),
            acc <= max,
        decreases cs.len() - i,
    {
        let c = cs[i];
        if !('0' <= c && c <= '9') {
            assert(!is_digit(body[i - start]));
            assert(!all_digits(body));
            assert(unsigned_body(s@) == body);
            assert(parse_unsigned(s@, max as int) is None);
            return None;
        }
        let d = (c as u32 - 48) as u128;
        assert(body.take(i + 1 - start).drop_last() =~= body.take(i - start));
        assert(body.take(i + 1 - start).last() == c);
        assert(digits_value(body.take(i + 1 - start)) == digits_value(body.take(i - start)) * 10 + ((c as u32) as int - 48));
        acc = acc * 10 + d;
        i = i + 1;
        if acc > max as u128 {
            proof {
                if forall|k: int| 0 <= k < body.len() ==> is_digit(#[trigger] body[k]) {
                    lemma_digits_value_grows(body, i - start);
                    assert(digits_value(body) > max);
                }
            }
            assert(parse_unsigned(s@, max as int) is None);
            return None;
        }
    }
    assert(body.take(body.len() as int) =~= body);
    Some(acc as u64)
}

proof fn lemma_decimal_digits(n: nat)
    ensures
        decimal(n).len() > 0,
        all_digits(decimal(n)),
        digits_value(decimal(n)) == n,
    decreases n,
{
    let d = (n % 10) as int;
    assert(digit_char(d) as u32 == 48 + d);
    if n >= 10 {
        lemma_decimal_digits(n / 10);
        let s = decimal(n / 10);
        assert(decimal(n).drop_last() =~= s);
        assert forall|i: int| 0 <= i < decimal(n).len() implies is_digit(#[trigger] decimal(n)[i]) by {
            if i < s.len() {
                assert(decimal(n)[i] == s[i]);
            }
        }
        assert(decimal(n).last() == digit_char(d));
        assert((n / 10) * 10 + n % 10 == n);
        assert(digits_value(decimal(n)) == digits_value(s) * 10 + ((digit_char(d) as u32) as int - 48));
    } else {
        assert(decimal(n) == seq![digit_char(n as int)]);
        assert(d == n);
        assert(decimal(n).drop_last() =~= Seq::<char>::empty());
        assert(digits_value(Seq::<char>::empty()) == 0);
        assert(digits_value(decimal(n)) == digits_value(decimal(n).drop_last()) * 10 + ((decimal(n).last() as u32) as int - 48));
    }
}

/// Printing a number in decimal and parsing it back gives the number again.
pub proof fn law_parse_reads_back_decimal(n: nat, max: int)
    requires
        n <= max,
    ensures
        parse_unsigned(decimal(n), max) == Some(n as int),
{
    lemma_decimal_digits(n);
    let d = decimal(n);
    assert(d[0] != '+') by {
        assert(is_digit(d[0]));
    }
    assert(unsigned_body(d) == d);
}

/// `s` split at every comma (`str::split(',')`): `n` commas give `n + 1` pieces.
pub open spec fn comma_pieces(s: Seq<char>) -> Seq<Seq<char>>
    decreases s.len(),
{
    if s.len() == 0 {
        seq![Seq::empty()]
    } else {
        let p = comma_pieces(s.drop_last());
        if s.last() == ',' {
            p.push(Seq::empty())
        } else {
            p.update(p.len() - 1, p.last().push(s.last()))
        }
    }
}

proof fn lemma_comma_pieces_nonempty(s: Seq<char>)
    ensures
        comma_pieces(s).len() >= 1,
    decreases s.len(),
{
    if s.len() > 0 {
        lemma_comma_pieces_nonempty(s.drop_last());
    }
}

/// The comma-separated entries of a list, each trimmed of white space.
pub open spec fn origin_list(s: Seq<char>) -> Seq<Seq<char>> {
    comma_pieces(s).map_values(|p: Seq<char>| trimmed(p))
}

/// Splits a comma-separated list and trims each entry.
pub fn split_trimmed(s: &str) -> (r: Vec<String>)
    ensures
        r@.map_values(|x: String| x@) == origin_list(s@),
{
    let cs = chars_of(s);
    let mut r: Vec<String> = Vec::new();
    let mut piece_start: usize = 0;
    let mut i: usize = 0;
    while i < cs.len()
        invariant
            cs@ == s@,
            piece_start <= i <= cs.len(),
            ({
                let p = comma_pieces(cs@.take(i as int));
                &&& p.len() == r.len() + 1
                &&& p.last() == cs@.subrange(piece_start as int, i as int)
                &&& forall|k: int| 0 <= k < r.len() ==> (#[trigger] r@[k])@ == trimmed(p[k])
            }),
        decreases cs.len() - i,
    {
        proof {
            lemma_comma_pieces_nonempty(cs@.take(i as int));
        }
        assert(cs@.take(i + 1).drop_last() =~= cs@.take(i as int));
        if cs[i] == ',' {
            let t = trimmed_string(&cs, piece_start, i);
            r.push(t);
            piece_start = i + 1;
            assert(cs@.subrange(piece_start as int, i + 1) =~= Seq::<char>::empty());
        } else {
            assert(cs@.subrange(piece_start as int, i + 1) =~= cs@.subrange(piece_start as int, i as int).push(cs@[i as int]));
        }
        i = i + 1;
    }
    assert(cs@.take(cs.len() as int) =~= cs@);
    proof {
        lemma_comma_pieces_nonempty(cs@);
    }
    let t = trimmed_string(&cs, piece_start, cs.len());
    r.push(t);
    assert(r@.map_values(|x: String| x@) =~= origin_list(s@));
    r
}

/// Default listening port.
pub const DEFAULT_PORT: u16 = 8080;
/// Default lifetime of cached fuel responses, in seconds.
pub const DEFAULT_TTL_FUELS: u64 = 900;
/// Default lifetime of cached ENTSO-E responses, in seconds.
pub const DEFAULT_TTL_ENTSOE: u64 = 3600;

pub open spec fn parsed_or(v: Option<String>, max: int, default: int) -> int {
    match v {
        Some(s) => match parse_unsigned(s@, max) {
            Some(x) => x,
            None => default,
        },
        None => default,
    }
}

pub open spec fn default_origins() -> Seq<Seq<char>> {
    seq!["http://localhost:3000"@, "https://plentra.vercel.app"@, "https://frontend-gamma-pink-76.vercel.app"@]
}

fn number_or(v: &Option<String>, max: u64, default: u64) -> (r: u64)
    requires
        default <= max,
    ensures
        r == parsed_or(*v, max as int, default as int),
        r <= max,
{
    match v {
        Some(s) => match parse_unsigned_text(s.as_str(), max) {
            Some(x) => x,
            None => default,
        },
        None => default,
    }
}

impl Config {
    /// The configuration given the raw values of its environment variables
    /// (`None` where a variable is unset): numbers that do not parse fall back
    /// to their defaults, and the origin list is split at commas and trimmed.
    pub fn from_values(
        port: Option<String>,
        database_url: Option<String>,
        entsoe_token: Option<String>,
        anthropic_api_key: Option<String>,
        databento_api_key: Option<String>,
        cache_ttl_fuels: Option<String>,
        cache_ttl_entsoe: Option<String>,
        allowed_origins: Option<String>,
    ) -> (c: Config)
        ensures
            c.port == parsed_or(port, u16::MAX as int, DEFAULT_PORT as int),
            c.database_url == database_url,
            c.entsoe_token == entsoe_token,
            c.anthropic_api_key == anthropic_api_key,
            c.databento_api_key == databento_api_key,
            c.cache_ttl_fuels == parsed_or(cache_ttl_fuels, u64::MAX as int, DEFAULT_TTL_FUELS as int),
            c.cache_ttl_entsoe == parsed_or(cache_ttl_entsoe, u64::MAX as int, DEFAULT_TTL_ENTSOE as int),
            c.allowed_origins@.map_values(|x: String| x@) == (match allowed_origins {
                Some(v) => origin_list(v@),
                None => default_origins(),
            }),
    {
        let port_value = number_or(&port, u16::MAX as u64, DEFAULT_PORT as u64) as u16;
        let ttl_fuels = number_or(&cache_ttl_fuels, u64::MAX, DEFAULT_TTL_FUELS);
        let ttl_entsoe = number_or(&cache_ttl_entsoe, u64::MAX, DEFAULT_TTL_ENTSOE);
        let origins = match &allowed_origins {
            Some(v) => split_trimmed(v.as_str()),
            None => {
                let mut d: Vec<String> = Vec::new();
                d.push(owned("http://localhost:3000"));
                d.push(owned("https://plentra.vercel.app"));
                d.push(owned("https://frontend-gamma-pink-76.vercel.app"));
                assert(d@.map_values(|x: String| x@) =~= default_origins());
                d
            }
        };
        Config {
            port: port_value,
            database_url,
            entsoe_token,
            anthropic_api_key,
            databento_api_key,
            cache_ttl_fuels: ttl_fuels,
            cache_ttl_entsoe: ttl_entsoe,
            allowed_origins: origins,
        }
    }
}

} // verus!
