//! Reading ENTSO-E XML documents: which texts name a production type, a
//! position or a quantity, and which quantities are kept. Quantities stay
//! text here; the numbers are read from them by the caller.

use vstd::prelude::*;
use quick_xml::events::Event;
use quick_xml::Reader;
use crate::config::{parse_unsigned, parse_unsigned_text};
use crate::ordering::{comes_before, first_of_runs, hourly_keep, is_stable_order, lex_lt, sorted_dedup_spec};
use crate::text::{float_syntax, is_float_text, same_text};

verus! {

/// An XML event as the readers below see it.
#[derive(Debug)]
pub enum XmlEvent {
    /// An opening tag, by its qualified name.
    Start(String),
    /// A closing tag, by its qualified name.
    End(String),
    /// Text between tags, unescaped (empty when unescaping fails).
    Text(String),
    /// Anything else: empty tags, comments, declarations.
    Other,
}

/// The contents of an event.
pub enum XmlToken {
    Start(Seq<char>),
    End(Seq<char>),
    Text(Seq<char>),
    Other,
}

pub open spec fn token_of(e: XmlEvent) -> XmlToken {
    match e {
        XmlEvent::Start(n) => XmlToken::Start(n@),
        XmlEvent::End(n) => XmlToken::End(n@),
        XmlEvent::Text(t) => XmlToken::Text(t@),
        XmlEvent::Other => XmlToken::Other,
    }
}

pub open spec fn tokens_of(events: Seq<XmlEvent>) -> Seq<XmlToken> {
    events.map_values(|e: XmlEvent| token_of(e))
}

/// What quick-xml reads from a document: its events up to the end of the
/// input or the first error.
pub uninterp spec fn xml_tokens(xml: Seq<char>) -> Seq<XmlToken>;

/// The events of a document, read with quick-xml's `Reader::from_str` and
/// `read_event` until the end or the first error.
///
/// Claims that the events are what `xml_tokens` names for the text; how
/// quick-xml tokenizes is not restated.
#[verifier::external_body]
fn read_xml_events(xml: &str) -> (r: Vec<XmlEvent>)
    ensures
        tokens_of(r@) == xml_tokens(xml@),
{
    let mut reader = Reader::from_str(xml);
    let mut out = Vec::new();
    loop {
        match reader.read_event() {
            Ok(Event::Start(e)) => out.push(XmlEvent::Start(String::from_utf8_lossy(e.name().as_ref()).to_string())),
            Ok(Event::End(e)) => out.push(XmlEvent::End(String::from_utf8_lossy(e.name().as_ref()).to_string())),
            Ok(Event::Text(e)) => out.push(XmlEvent::Text(e.unescape().unwrap_or_default().to_string())),
            Ok(Event::Eof) | Err(_) => return out,
            Ok(_) => out.push(XmlEvent::Other),
        }
    }
}

/// Tag names that introduce a production type.
pub open spec fn is_psr_tag(n: Seq<char>) -> bool {
    n == "psrType"@ || n == "MktPSRType"@
}

fn psr_tag(n: &String) -> (r: bool)
    ensures
        r == is_psr_tag(n@),
{
    same_text(n.as_str(), "psrType") || same_text(n.as_str(), "MktPSRType")
}

pub open spec fn opt_view(o: Option<String>) -> Option<Seq<char>> {
    match o {
        Some(s) => Some(s@),
        None => None,
    }
}

pub open spec fn pairs_view(s: Seq<(String, String)>) -> Seq<(Seq<char>, Seq<char>)> {
    s.map_values(|p: (String, String)| (p.0@, p.1@))
}

// ---------------------------------------------------------------------------
// Latest generation per production type

/// Scan state for current generation: the production type and last readable
/// quantity of the time series being read, which text comes next, and the
/// (type, quantity) pairs of the finished series in order.
pub struct GenScan {
    pub psr: Option<Seq<char>>,
    pub qty: Option<Seq<char>>,
    pub in_psr: bool,
    pub in_qty: bool,
    pub out: Seq<(Seq<char>, Seq<char>)>,
}

pub open spec fn gen_step(s: GenScan, t: XmlToken) -> GenScan {
    match t {
        XmlToken::Start(n) => {
            if is_psr_tag(n) {
                GenScan { psr: s.psr, qty: s.qty, in_psr: true, in_qty: s.in_qty, out: s.out }
            } else if n == "quantity"@ {
                GenScan { psr: s.psr, qty: s.qty, in_psr: s.in_psr, in_qty: true, out: s.out }
            } else {
                s
            }
        },
        XmlToken::End(n) => {
            if n == "TimeSeries"@ {
                let out = if s.psr is Some && s.qty is Some { s.out.push((s.psr->0, s.qty->0)) } else { s.out };
                GenScan { psr: None, qty: None, in_psr: s.in_psr, in_qty: s.in_qty, out }
            } else {
                s
            }
        },
        XmlToken::Text(x) => {
            if s.in_psr {
                GenScan { psr: Some(x), qty: s.qty, in_psr: false, in_qty: s.in_qty, out: s.out }
            } else if s.in_qty {
                let qty = if is_float_text(x) { Some(x) } else { s.qty };
                GenScan { psr: s.psr, qty, in_psr: s.in_psr, in_qty: false, out: s.out }
            } else {
                s
            }
        },
        XmlToken::Other => s,
    }
}

pub open spec fn gen_scan(ts: Seq<XmlToken>) -> GenScan
    decreases ts.len(),
{
    if ts.len() == 0 {
        GenScan { psr: None, qty: None, in_psr: false, in_qty: false, out: Seq::empty() }
    } else {
        gen_step(gen_scan(ts.drop_last()), ts.last())
    }
}

/// For each time series, in order, its production type and the last of its
/// quantities that reads as a number, when it has both.
pub fn generation_pairs(events: &Vec<XmlEvent>) -> (r: Vec<(String, String)>)
    ensures
        pairs_view(r@) == gen_scan(tokens_of(events@)).out,
{
    let ghost ts = tokens_of(events@);
    let mut psr: Option<String> = None;
    let mut qty: Option<String> = None;
    let mut in_psr = false;
    let mut in_qty = false;
    let mut out: Vec<(String, String)> = Vec::new();
    let mut i: usize = 0;
    while i < events.len()
        invariant
            ts == tokens_of(events@),
            i <= events.len(),
            ({
                let s = gen_scan(ts.take(i as int));
                &&& opt_view(psr) == s.psr
                &&& opt_view(qty) == s.qty
                &&& in_psr == s.in_psr
                &&& in_qty == s.in_qty
                &&& pairs_view(out@) == s.out
            }),
        decreases events.len() - i,
    {
        assert(ts.take(i + 1).drop_last() =~= ts.take(i as int));
        assert(ts.take(i + 1).last() == token_of(events@[i as int]));
        match &events[i] {
            XmlEvent::Start(n) => {
                if psr_tag(n) {
                    in_psr = true;
                } else if same_text(n.as_str(), "quantity") {
                    in_qty = true;
                }
            },
            XmlEvent::End(n) => {
                if same_text(n.as_str(), "TimeSeries") {
                    match (&psr, &qty) {
                        (Some(p), Some(q)) => {
                            let ghost old_out = out@;
                            out.push((p.clone(), q.clone()));
                            assert(pairs_view(out@) =~= pairs_view(old_out).push((p@, q@)));
                        },
                        _ => {},
                    }
                    psr = None;
                    qty = None;
                }
            },
            XmlEvent::Text(x) => {
                if in_psr {
                    psr = Some(x.clone());
                    in_psr = false;
                } else if in_qty {
                    if float_syntax(x.as_str()) {
                        qty = Some(x.clone());
                    }
                    in_qty = false;
                }
            },
            XmlEvent::Other => {},
        }
        i = i + 1;
    }
    assert(ts.take(events.len() as int) =~= ts);
    out
}

/// The latest generation per production type of a document: every series'
/// (type, quantity) pair in order, later pairs replacing earlier ones of the
/// same type; `None` when the document has none.
pub fn parse_generation_quantities(xml: &str) -> (r: Option<Vec<(String, String)>>)
    ensures
        r is None <==> gen_scan(xml_tokens(xml@)).out.len() == 0,
        r matches Some(v) ==> pairs_view(v@) == gen_scan(xml_tokens(xml@)).out,
{
    let events = read_xml_events(xml);
    let pairs = generation_pairs(&events);
    if pairs.len() == 0 {
        None
    } else {
        Some(pairs)
    }
}

// ---------------------------------------------------------------------------
// Latest load

/// Scan state for current load: the last quantity that reads as a number,
/// and whether the next text is a quantity.
pub struct LoadScan {
    pub last: Option<Seq<char>>,
    pub in_qty: bool,
}

pub open spec fn load_step(s: LoadScan, t: XmlToken) -> LoadScan {
    match t {
        XmlToken::Start(n) => if n == "quantity"@ { LoadScan { last: s.last, in_qty: true } } else { s },
        XmlToken::Text(x) => {
            if s.in_qty {
                LoadScan { last: if is_float_text(x) { Some(x) } else { s.last }, in_qty: false }
            } else {
                s
            }
        },
        _ => s,
    }
}

pub open spec fn load_scan(ts: Seq<XmlToken>) -> LoadScan
    decreases ts.len(),
{
    if ts.len() == 0 {
        LoadScan { last: None, in_qty: false }
    } else {
        load_step(load_scan(ts.drop_last()), ts.last())
    }
}

/// The document's last quantity that reads as a number.
pub fn parse_load_quantity(xml: &str) -> (r: Option<String>)
    ensures
        opt_view(r) == load_scan(xml_tokens(xml@)).last,
{
    let events = read_xml_events(xml);
    let ghost ts = tokens_of(events@);
    let mut last: Option<String> = None;
    let mut in_qty = false;
    let mut i: usize = 0;
    while i < events.len()
        invariant
            ts == tokens_of(events@),
            i <= events.len(),
            opt_view(last) == load_scan(ts.take(i as int)).last,
            in_qty == load_scan(ts.take(i as int)).in_qty,
        decreases events.len() - i,
    {
        assert(ts.take(i + 1).drop_last() =~= ts.take(i as int));
        assert(ts.take(i + 1).last() == token_of(events@[i as int]));
        match &events[i] {
            XmlEvent::Start(n) => {
                if same_text(n.as_str(), "quantity") {
                    in_qty = true;
                }
            },
            XmlEvent::Text(x) => {
                if in_qty {
                    if float_syntax(x.as_str()) {
                        last = Some(x.clone());
                    }
                    in_qty = false;
                }
            },
            _ => {},
        }
        i = i + 1;
    }
    assert(ts.take(events.len() as int) =~= ts);
    last
}

// ---------------------------------------------------------------------------
// Wind and solar forecast

/// Wind production types: onshore and offshore.
pub open spec fn is_wind(psr: Option<Seq<char>>) -> bool {
    psr == Some("B19"@) || psr == Some("B18"@)
}

/// The solar production type.
pub open spec fn is_solar(psr: Option<Seq<char>>) -> bool {
    psr == Some("B16"@)
}

/// Scan state for the forecast: the latest production type seen, which text
/// comes next, and the wind and solar quantities read so far.
pub struct ForecastScan {
    pub psr: Option<Seq<char>>,
    pub in_psr: bool,
    pub in_qty: bool,
    pub wind: Seq<Seq<char>>,
    pub solar: Seq<Seq<char>>,
}

pub open spec fn forecast_step(s: ForecastScan, t: XmlToken) -> ForecastScan {
    match t {
        XmlToken::Start(n) => {
            if is_psr_tag(n) {
                ForecastScan { psr: s.psr, in_psr: true, in_qty: s.in_qty, wind: s.wind, solar: s.solar }
            } else if n == "quantity"@ {
                ForecastScan { psr: s.psr, in_psr: s.in_psr, in_qty: true, wind: s.wind, solar: s.solar }
            } else {
                s
            }
        },
        XmlToken::Text(x) => {
            if s.in_psr {
                ForecastScan { psr: Some(x), in_psr: false, in_qty: s.in_qty, wind: s.wind, solar: s.solar }
            } else if s.in_qty {
                let wind = if is_float_text(x) && is_wind(s.psr) { s.wind.push(x) } else { s.wind };
                let solar = if is_float_text(x) && is_solar(s.psr) { s.solar.push(x) } else { s.solar };
                ForecastScan { psr: s.psr, in_psr: s.in_psr, in_qty: false, wind, solar }
            } else {
                s
            }
        },
        _ => s,
    }
}

pub open spec fn forecast_scan(ts: Seq<XmlToken>) -> ForecastScan
    decreases ts.len(),
{
    if ts.len() == 0 {
        ForecastScan { psr: None, in_psr: false, in_qty: false, wind: Seq::empty(), solar: Seq::empty() }
    } else {
        forecast_step(forecast_scan(ts.drop_last()), ts.last())
    }
}

pub open spec fn texts_view(v: Seq<String>) -> Seq<Seq<char>> {
    v.map_values(|x: String| x@)
}

fn is_wind_type(psr: &Option<String>) -> (r: bool)
    ensures
        r == is_wind(opt_view(*psr)),
{
    match psr {
        Some(p) => same_text(p.as_str(), "B19") || same_text(p.as_str(), "B18"),
        None => false,
    }
}

fn is_solar_type(psr: &Option<String>) -> (r: bool)
    ensures
        r == is_solar(opt_view(*psr)),
{
    match psr {
        Some(p) => same_text(p.as_str(), "B16"),
        None => false,
    }
}

/// The wind and the solar quantities of a forecast document, in order.
pub fn parse_forecast_quantities(xml: &str) -> (r: (Vec<String>, Vec<String>))
    ensures
        texts_view(r.0@) == forecast_scan(xml_tokens(xml@)).wind,
        texts_view(r.1@) == forecast_scan(xml_tokens(xml@)).solar,
{
    let events = read_xml_events(xml);
    let ghost ts = tokens_of(events@);
    let mut psr: Option<String> = None;
    let mut in_psr = false;
    let mut in_qty = false;
    let mut wind: Vec<String> = Vec::new();
    let mut solar: Vec<String> = Vec::new();
    let mut i: usize = 0;
    while i < events.len()
        invariant
            ts == tokens_of(events@),
            i <= events.len(),
            ({
                let s = forecast_scan(ts.take(i as int));
                &&& opt_view(psr) == s.psr
                &&& in_psr == s.in_psr
                &&& in_qty == s.in_qty
                &&& texts_view(wind@) == s.wind
                &&& texts_view(solar@) == s.solar
            }),
        decreases events.len() - i,
    {
        assert(ts.take(i + 1).drop_last() =~= ts.take(i as int));
        assert(ts.take(i + 1).last() == token_of(events@[i as int]));
        match &events[i] {
            XmlEvent::Start(n) => {
                if psr_tag(n) {
                    in_psr = true;
                } else if same_text(n.as_str(), "quantity") {
                    in_qty = true;
                }
            },
            XmlEvent::Text(x) => {
                if in_psr {
                    psr = Some(x.clone());
                    in_psr = false;
                } else if in_qty {
                    if float_syntax(x.as_str()) {
                        if is_wind_type(&psr) {
                            let ghost old = wind@;
                            wind.push(x.clone());
                            assert(texts_view(wind@) =~= texts_view(old).push(x@));
                        }
                        if is_solar_type(&psr) {
                            let ghost old = solar@;
                            solar.push(x.clone());
                            assert(texts_view(solar@) =~= texts_view(old).push(x@));
                        }
                    }
                    in_qty = false;
                }
            },
            _ => {},
        }
        i = i + 1;
    }
    assert(ts.take(events.len() as int) =~= ts);
    (wind, solar)
}

// ---------------------------------------------------------------------------
// Hourly generation and load

/// `str::parse::<u32>` as a spec: the value of an unsigned decimal text that
/// fits in 32 bits.
pub open spec fn u32_of(x: Seq<char>) -> Option<u32> {
    match parse_unsigned(x, u32::MAX as int) {
        Some(v) => Some(v as u32),
        None => None,
    }
}

/// The hour of a 1-based position (position 0 counts as hour 0).
pub open spec fn hour_of_position(pos: u32) -> u32 {
    if pos >= 1 { (pos - 1) as u32 } else { 0 }
}

/// Scan state for hourly generation: the production type of the current
/// series, the latest position, which text comes next, and the
/// (hour, type, quantity) readings kept so far.
pub struct HourlyGenScan {
    pub psr: Option<Seq<char>>,
    pub pos: Option<u32>,
    pub in_psr: bool,
    pub in_pos: bool,
    pub in_qty: bool,
    pub out: Seq<(u32, Seq<char>, Seq<char>)>,
}

pub open spec fn hourly_gen_step(s: HourlyGenScan, t: XmlToken) -> HourlyGenScan {
    match t {
        XmlToken::Start(n) => {
            if is_psr_tag(n) {
                HourlyGenScan { in_psr: true, ..s }
            } else if n == "position"@ {
                HourlyGenScan { in_pos: true, ..s }
            } else if n == "quantity"@ {
                HourlyGenScan { in_qty: true, ..s }
            } else {
                s
            }
        },
        XmlToken::End(n) => if n == "TimeSeries"@ { HourlyGenScan { psr: None, ..s } } else { s },
        XmlToken::Text(x) => {
            if s.in_psr {
                HourlyGenScan { psr: Some(x), in_psr: false, ..s }
            } else if s.in_pos {
                HourlyGenScan { pos: u32_of(x), in_pos: false, ..s }
            } else if s.in_qty {
                let keep = s.psr is Some && s.pos is Some && is_float_text(x) && hour_of_position(s.pos->0) < 24;
                let out = if keep { s.out.push((hour_of_position(s.pos->0), s.psr->0, x)) } else { s.out };
                HourlyGenScan { in_qty: false, out, ..s }
            } else {
                s
            }
        },
        XmlToken::Other => s,
    }
}

pub open spec fn hourly_gen_scan(ts: Seq<XmlToken>) -> HourlyGenScan
    decreases ts.len(),
{
    if ts.len() == 0 {
        HourlyGenScan { psr: None, pos: None, in_psr: false, in_pos: false, in_qty: false, out: Seq::empty() }
    } else {
        hourly_gen_step(hourly_gen_scan(ts.drop_last()), ts.last())
    }
}

pub open spec fn triples_view(v: Seq<(u32, String, String)>) -> Seq<(u32, Seq<char>, Seq<char>)> {
    v.map_values(|p: (u32, String, String)| (p.0, p.1@, p.2@))
}

fn position_hour(pos: u32) -> (r: u32)
    ensures
        r == hour_of_position(pos),
{
    if pos >= 1 { pos - 1 } else { 0 }
}

fn read_u32(x: &String) -> (r: Option<u32>)
    ensures
        r == u32_of(x@),
{
    match parse_unsigned_text(x.as_str(), u32::MAX as u64) {
        Some(v) => Some(v as u32),
        None => None,
    }
}

/// Every hourly reading of a generation document, in order: its hour (the
/// 1-based position less one), production type and quantity, for quantities
/// that read as numbers within the first 24 positions of a typed series.
pub fn parse_hourly_generation_readings(xml: &str) -> (r: Vec<(u32, String, String)>)
    ensures
        triples_view(r@) == hourly_gen_scan(xml_tokens(xml@)).out,
{
    let events = read_xml_events(xml);
    let ghost ts = tokens_of(events@);
    let mut psr: Option<String> = None;
    let mut pos: Option<u32> = None;
    let mut in_psr = false;
    let mut in_pos = false;
    let mut in_qty = false;
    let mut out: Vec<(u32, String, String)> = Vec::new();
    let mut i: usize = 0;
    while i < events.len()
        invariant
            ts == tokens_of(events@),
            i <= events.len(),
            ({
                let s = hourly_gen_scan(ts.take(i as int));
                &&& opt_view(psr) == s.psr
                &&& pos == s.pos
                &&& in_psr == s.in_psr
                &&& in_pos == s.in_pos
                &&& in_qty == s.in_qty
                &&& triples_view(out@) == s.out
            }),
        decreases events.len() - i,
    {
        assert(ts.take(i + 1).drop_last() =~= ts.take(i as int));
        assert(ts.take(i + 1).last() == token_of(events@[i as int]));
        match &events[i] {
            XmlEvent::Start(n) => {
                if psr_tag(n) {
                    in_psr = true;
                } else if same_text(n.as_str(), "position") {
                    in_pos = true;
                } else if same_text(n.as_str(), "quantity") {
                    in_qty = true;
                }
            },
            XmlEvent::End(n) => {
                if same_text(n.as_str(), "TimeSeries") {
                    psr = None;
                }
            },
            XmlEvent::Text(x) => {
                if in_psr {
                    psr = Some(x.clone());
                    in_psr = false;
                } else if in_pos {
                    pos = read_u32(x);
                    in_pos = false;
                } else if in_qty {
                    match (&psr, pos) {
                        (Some(p), Some(q)) => {
                            if float_syntax(x.as_str()) {
                                let hour = position_hour(q);
                                if hour < 24 {
                                    let ghost old = out@;
                                    out.push((hour, p.clone(), x.clone()));
                                    assert(triples_view(out@) =~= triples_view(old).push((hour, p@, x@)));
                                }
                            }
                        },
                        _ => {},
                    }
                    in_qty = false;
                }
            },
            XmlEvent::Other => {},
        }
        i = i + 1;
    }
    assert(ts.take(events.len() as int) =~= ts);
    out
}

/// Scan state for hourly values: the latest position, which text comes next,
/// and the (hour, value) readings kept so far.
pub struct HourlyValueScan {
    pub pos: Option<u32>,
    pub in_pos: bool,
    pub in_value: bool,
    pub out: Seq<(u32, Seq<char>)>,
}

/// One event of an hourly series whose values are the texts of `tag` elements.
pub open spec fn hourly_value_step(s: HourlyValueScan, t: XmlToken, tag: Seq<char>) -> HourlyValueScan {
    match t {
        XmlToken::Start(n) => {
            if n == "position"@ {
                HourlyValueScan { in_pos: true, ..s }
            } else if n == tag {
                HourlyValueScan { in_value: true, ..s }
            } else {
                s
            }
        },
        XmlToken::Text(x) => {
            if s.in_pos {
                HourlyValueScan { pos: u32_of(x), in_pos: false, ..s }
            } else if s.in_value {
                let keep = s.pos is Some && is_float_text(x) && hour_of_position(s.pos->0) < 24;
                let out = if keep { s.out.push((hour_of_position(s.pos->0), x)) } else { s.out };
                HourlyValueScan { in_value: false, out, ..s }
            } else {
                s
            }
        },
        _ => s,
    }
}

pub open spec fn hourly_value_scan(ts: Seq<XmlToken>, tag: Seq<char>) -> HourlyValueScan
    decreases ts.len(),
{
    if ts.len() == 0 {
        HourlyValueScan { pos: None, in_pos: false, in_value: false, out: Seq::empty() }
    } else {
        hourly_value_step(hourly_value_scan(ts.drop_last(), tag), ts.last(), tag)
    }
}

pub open spec fn hour_texts_view(v: Seq<(u32, String)>) -> Seq<(u32, Seq<char>)> {
    v.map_values(|p: (u32, String)| (p.0, p.1@))
}

/// Every hourly reading of a document, in order: the hour of the latest
/// position and the text of a `tag` element that reads as a number.
pub fn hourly_value_readings(events: &Vec<XmlEvent>, tag: &str) -> (r: Vec<(u32, String)>)
    ensures
        hour_texts_view(r@) == hourly_value_scan(tokens_of(events@), tag@).out,
{
    let ghost ts = tokens_of(events@);
    let mut pos: Option<u32> = None;
    let mut in_pos = false;
    let mut in_value = false;
    let mut out: Vec<(u32, String)> = Vec::new();
    let mut i: usize = 0;
    while i < events.len()
        invariant
            ts == tokens_of(events@),
            i <= events.len(),
            ({
                let s = hourly_value_scan(ts.take(i as int), tag@);
                &&& pos == s.pos
                &&& in_pos == s.in_pos
                &&& in_value == s.in_value
                &&& hour_texts_view(out@) == s.out
            }),
        decreases events.len() - i,
    {
        assert(ts.take(i + 1).drop_last() =~= ts.take(i as int));
        assert(ts.take(i + 1).last() == token_of(events@[i as int]));
        match &events[i] {
            XmlEvent::Start(n) => {
                if same_text(n.as_str(), "position") {
                    in_pos = true;
                } else if same_text(n.as_str(), tag) {
                    in_value = true;
                }
            },
            XmlEvent::Text(x) => {
                if in_pos {
                    pos = read_u32(x);
                    in_pos = false;
                } else if in_value {
                    match pos {
                        Some(q) => {
                            if float_syntax(x.as_str()) {
                                let hour = position_hour(q);
                                if hour < 24 {
                                    let ghost old = out@;
                                    out.push((hour, x.clone()));
                                    assert(hour_texts_view(out@) =~= hour_texts_view(old).push((hour, x@)));
                                }
                            }
                        },
                        None => {},
                    }
                    in_value = false;
                }
            },
            _ => {},
        }
        i = i + 1;
    }
    assert(ts.take(events.len() as int) =~= ts);
    out
}

/// The first reading of each hour, hours in increasing order (a stable sort
/// by hour, then removal of repeated hours).
pub open spec fn first_per_hour(pts: Seq<(u32, Seq<char>)>, r: Seq<(u32, Seq<char>)>) -> bool {
    let hours = pts.map_values(|p: (u32, Seq<char>)| seq![p.0 as i64]);
    exists|kept: Seq<usize>|
        sorted_dedup_spec(hours, hours, kept) && r == kept.map_values(|k: usize| pts[k as int])
}

/// Keeping the first reading of each hour leaves one reading per hour, hours
/// strictly increasing.
pub proof fn law_one_reading_per_hour(pts: Seq<(u32, Seq<char>)>, r: Seq<(u32, Seq<char>)>)
    requires
        first_per_hour(pts, r),
    ensures
        forall|a: int, b: int| 0 <= a < b < r.len() ==> #[trigger] r[a].0 < #[trigger] r[b].0,
{
    let hours = pts.map_values(|p: (u32, Seq<char>)| seq![p.0 as i64]);
    let kept = choose|kept: Seq<usize>|
        sorted_dedup_spec(hours, hours, kept) && r == kept.map_values(|k: usize| pts[k as int]);
    let ord = choose|ord: Seq<usize>| is_stable_order(hours, ord) && kept == first_of_runs(ord, hours);
    assert forall|k: int| 0 <= k < hours.len() implies (#[trigger] hours[k]).len() == 1 by {}
    assert forall|i: int, j: int| 0 <= i < j < ord.len() implies
        #[trigger] hours[ord[i] as int][0] <= #[trigger] hours[ord[j] as int][0] by {
        assert(comes_before(hours, ord[i] as int, ord[j] as int));
        let x = hours[ord[i] as int];
        let y = hours[ord[j] as int];
        if lex_lt(x, y) {
            assert(x.len() == 1 && y.len() == 1);
            if x[0] > y[0] {
                assert(!lex_lt(x, y));
            }
        }
    }
    crate::ordering::lemma_runs_increase(ord, hours);
    crate::ordering::lemma_kept_within(hours, hours, kept);
    assert forall|a: int, b: int| 0 <= a < b < r.len() implies #[trigger] r[a].0 < #[trigger] r[b].0 by {
        assert(r[a] == pts[kept[a] as int]);
        assert(r[b] == pts[kept[b] as int]);
        assert(hours[kept[a] as int][0] < hours[kept[b] as int][0]);
    }
}

/// The readings sorted by hour (stable), the first reading of each hour kept.
pub fn first_reading_per_hour(pts: &Vec<(u32, String)>) -> (r: Vec<(u32, String)>)
    ensures
        first_per_hour(hour_texts_view(pts@), hour_texts_view(r@)),
{
    let ghost ptv = hour_texts_view(pts@);
    let mut hours: Vec<u32> = Vec::new();
    let mut i: usize = 0;
    while i < pts.len()
        invariant
            i <= pts.len(),
            hours@ == pts@.take(i as int).map_values(|p: (u32, String)| p.0),
        decreases pts.len() - i,
    {
        hours.push(pts[i].0);
        assert(pts@.take(i + 1).map_values(|p: (u32, String)| p.0)
            =~= pts@.take(i as int).map_values(|p: (u32, String)| p.0).push(pts@[i as int].0));
        i = i + 1;
    }
    assert(pts@.take(pts.len() as int) =~= pts@);
    let kept = hourly_keep(&hours);
    assert(hours@.map_values(|h: u32| seq![h as i64]) =~= ptv.map_values(|p: (u32, Seq<char>)| seq![p.0 as i64]));
    proof {
        crate::ordering::lemma_kept_within(hours@.map_values(|h: u32| seq![h as i64]), hours@.map_values(|h: u32| seq![h as i64]), kept@);
    }
    let mut r: Vec<(u32, String)> = Vec::new();
    let mut j: usize = 0;
    while j < kept.len()
        invariant
            j <= kept.len(),
            forall|t: int| 0 <= t < kept.len() ==> (#[trigger] kept@[t]) < pts.len(),
            ptv == hour_texts_view(pts@),
            hour_texts_view(r@) == kept@.take(j as int).map_values(|k: usize| ptv[k as int]),
        decreases kept.len() - j,
    {
        let k = kept[j];
        let p = (pts[k].0, pts[k].1.clone());
        let ghost old = r@;
        r.push(p);
        assert(hour_texts_view(r@) =~= hour_texts_view(old).push(ptv[k as int]));
        assert(kept@.take(j + 1).map_values(|k: usize| ptv[k as int])
            =~= kept@.take(j as int).map_values(|k: usize| ptv[k as int]).push(ptv[k as int]));
        j = j + 1;
    }
    assert(kept@.take(kept.len() as int) =~= kept@);
    r
}

/// The hourly load of a document (`quantity` values): the first reading of
/// each hour, in hour order.
pub fn parse_hourly_load_quantities(xml: &str) -> (r: Vec<(u32, String)>)
    ensures
        first_per_hour(hourly_value_scan(xml_tokens(xml@), "quantity"@).out, hour_texts_view(r@)),
{
    let events = read_xml_events(xml);
    let pts = hourly_value_readings(&events, "quantity");
    first_reading_per_hour(&pts)
}

/// The hourly day-ahead prices of a document (`price.amount` values): the
/// first reading of each hour, in hour order.
pub fn parse_hourly_prices(xml: &str) -> (r: Vec<(u32, String)>)
    ensures
        first_per_hour(hourly_value_scan(xml_tokens(xml@), "price.amount"@).out, hour_texts_view(r@)),
{
    let events = read_xml_events(xml);
    let pts = hourly_value_readings(&events, "price.amount");
    first_reading_per_hour(&pts)
}

// ---------------------------------------------------------------------------
// Congestion risk level

/// The level of a congestion-risk index given its whole part (0 to 100).
pub open spec fn cri_level_of(v: u32) -> Seq<char> {
    if v <= 33 {
        "LOW"@
    } else if v <= 59 {
        "MODERATE"@
    } else if v <= 79 {
        "ELEVATED"@
    } else {
        "CRITICAL"@
    }
}

/// The congestion-risk level of an index's whole part.
pub fn cri_level(v: u32) -> (r: &'static str)
    ensures
        r@ == cri_level_of(v),
{
    if v <= 33 {
        "LOW"
    } else if v <= 59 {
        "MODERATE"
    } else if v <= 79 {
        "ELEVATED"
    } else {
        "CRITICAL"
    }
}

} // verus!
