//! Futures instruments, their datasets, and the exact contract symbols the
//! spread calculation needs.

use vstd::prelude::*;
use crate::calendar::{Date, date_le, on_or_before, MAX_YEAR, MIN_YEAR};
use crate::css::{add_months, add_months_defined, months_ahead_supported, add_months_spec, ice_month_code, month_to_ice_code, rem_trunc, two_digit_year};
use crate::ordering::{dedup_runs, first_of_runs, is_stable_order, key_views, stable_order};
use crate::text::{chars_of, owned, push_char, push_signed_zero_padded, push_str, signed_zero_padded, starts_with};

verus! {

/// Market-data dataset an instrument is published in.
#[derive(Clone, Copy, Debug, PartialEq, Eq, Structural)]
pub enum Dataset {
    /// ICE Endex (iMpact feed).
    NdexImpact,
    /// ICE Futures Europe (iMpact feed).
    IfeuImpact,
}

impl Dataset {
    pub open spec fn code(self) -> Seq<char> {
        match self {
            Dataset::NdexImpact => "NDEX.IMPACT"@,
            Dataset::IfeuImpact => "IFEU.IMPACT"@,
        }
    }

    /// The dataset's identifier.
    pub fn as_str(&self) -> (r: &'static str)
        ensures
            r@ == self.code(),
    {
        match self {
            Dataset::NdexImpact => "NDEX.IMPACT",
            Dataset::IfeuImpact => "IFEU.IMPACT",
        }
    }
}

/// Instrument definition.
#[derive(Debug, Clone, Copy)]
pub struct Instrument {
    pub name: &'static str,
    pub dataset: Dataset,
    pub symbol: &'static str,
    pub unit: &'static str,
}

/// The instrument table as plain values: name, dataset, symbol and unit.
pub open spec fn instrument_table() -> Seq<(Seq<char>, Dataset, Seq<char>, Seq<char>)> {
    seq![
        ("TTF"@, Dataset::NdexImpact, "TFM.FUT"@, "EUR/MWh"@),
        ("EUA"@, Dataset::NdexImpact, "ECF.FUT"@, "EUR/t"@),
        ("ARA"@, Dataset::IfeuImpact, "ATW.FUT"@, "USD/t"@),
        ("GAB"@, Dataset::NdexImpact, "GAB.FUT"@, "EUR/MWh"@),
    ]
}

pub open spec fn instrument_view(i: Instrument) -> (Seq<char>, Dataset, Seq<char>, Seq<char>) {
    (i.name@, i.dataset, i.symbol@, i.unit@)
}

/// The instruments whose settlements the backend follows, in fetch order.
pub fn instruments() -> (r: Vec<Instrument>)
    ensures
        r@.map_values(|i: Instrument| instrument_view(i)) == instrument_table(),
        r.len() == 4,
        r[0].name@ == "TTF"@ && r[0].dataset == Dataset::NdexImpact && r[0].symbol@ == "TFM.FUT"@ && r[0].unit@ == "EUR/MWh"@,
        r[1].name@ == "EUA"@ && r[1].dataset == Dataset::NdexImpact && r[1].symbol@ == "ECF.FUT"@ && r[1].unit@ == "EUR/t"@,
        r[2].name@ == "ARA"@ && r[2].dataset == Dataset::IfeuImpact && r[2].symbol@ == "ATW.FUT"@ && r[2].unit@ == "USD/t"@,
        r[3].name@ == "GAB"@ && r[3].dataset == Dataset::NdexImpact && r[3].symbol@ == "GAB.FUT"@ && r[3].unit@ == "EUR/MWh"@,
{
    let mut r: Vec<Instrument> = Vec::new();
    r.push(Instrument { name: "TTF", dataset: Dataset::NdexImpact, symbol: "TFM.FUT", unit: "EUR/MWh" });
    r.push(Instrument { name: "EUA", dataset: Dataset::NdexImpact, symbol: "ECF.FUT", unit: "EUR/t" });
    r.push(Instrument { name: "ARA", dataset: Dataset::IfeuImpact, symbol: "ATW.FUT", unit: "USD/t" });
    r.push(Instrument { name: "GAB", dataset: Dataset::NdexImpact, symbol: "GAB.FUT", unit: "EUR/MWh" });
    assert(r@.map_values(|i: Instrument| instrument_view(i)) =~= instrument_table());
    r
}

/// Ticker implied by a raw symbol's prefix.
pub open spec fn ticker_of(raw: Seq<char>) -> Seq<char> {
    if "TFM"@.is_prefix_of(raw) {
        "TTF"@
    } else if "ECF"@.is_prefix_of(raw) {
        "EUA"@
    } else if "ATW"@.is_prefix_of(raw) {
        "ARA"@
    } else if "GAB"@.is_prefix_of(raw) {
        "GAB"@
    } else {
        "UNKNOWN"@
    }
}

/// Unit implied by a raw symbol's prefix (empty when unknown).
pub open spec fn unit_of(raw: Seq<char>) -> Seq<char> {
    if "TFM"@.is_prefix_of(raw) || "GAB"@.is_prefix_of(raw) {
        "EUR/MWh"@
    } else if "ECF"@.is_prefix_of(raw) {
        "EUR/t"@
    } else if "ATW"@.is_prefix_of(raw) {
        "USD/t"@
    } else {
        Seq::empty()
    }
}

/// Infer ticker from raw symbol prefix.
pub fn ticker_for_symbol(raw: &str) -> (r: String)
    ensures
        r@ == ticker_of(raw@),
{
    let cs = chars_of(raw);
    if starts_with(&cs, "TFM") {
        owned("TTF")
    } else if starts_with(&cs, "ECF") {
        owned("EUA")
    } else if starts_with(&cs, "ATW") {
        owned("ARA")
    } else if starts_with(&cs, "GAB") {
        owned("GAB")
    } else {
        owned("UNKNOWN")
    }
}

/// Infer unit from raw symbol prefix.
pub fn unit_for_symbol(raw: &str) -> (r: String)
    ensures
        r@ == unit_of(raw@),
{
    let cs = chars_of(raw);
    if starts_with(&cs, "TFM") || starts_with(&cs, "GAB") {
        owned("EUR/MWh")
    } else if starts_with(&cs, "ECF") {
        owned("EUR/t")
    } else if starts_with(&cs, "ATW") {
        owned("USD/t")
    } else {
        String::new()
    }
}


/// One exact contract to fetch: dataset, raw symbol, ticker and unit.
#[derive(Debug)]
pub struct ContractSymbol {
    pub dataset: Dataset,
    pub raw_symbol: String,
    pub ticker: String,
    pub unit: String,
}

/// Plain-value description of a contract to fetch.
pub type ContractSpec = (Dataset, Seq<char>, Seq<char>, Seq<char>);

pub open spec fn contract_view(c: ContractSymbol) -> ContractSpec {
    (c.dataset, c.raw_symbol@, c.ticker@, c.unit@)
}

/// Months counted from year 0: `y * 12 + (m - 1)`.
pub open spec fn month_index(y: int, m: int) -> int {
    y * 12 + (m - 1)
}

/// `"{prefix} FM{code}00{yy:02}!"`: a monthly contract of month index `mi`.
pub open spec fn monthly_contract_text(prefix: Seq<char>, mi: int) -> Seq<char> {
    prefix + " FM"@ + seq![ice_month_code(mi % 12 + 1)->0] + "00"@ + signed_zero_padded(rem_trunc(mi / 12, 100), 2) + "!"@
}

/// The gas, power and coal contracts of month index `mi`.
pub open spec fn monthly_contracts(mi: int) -> Seq<ContractSpec> {
    seq![
        (Dataset::NdexImpact, monthly_contract_text("TFM"@, mi), "TTF"@, "EUR/MWh"@),
        (Dataset::NdexImpact, monthly_contract_text("GAB"@, mi), "GAB"@, "EUR/MWh"@),
        (Dataset::IfeuImpact, monthly_contract_text("ATW"@, mi), "ARA"@, "USD/t"@),
    ]
}

/// Monthly contracts for every month index from `lo` to `hi`, in order.
pub open spec fn months_contracts(lo: int, hi: int) -> Seq<ContractSpec>
    decreases hi - lo + 1,
{
    if hi < lo {
        Seq::empty()
    } else {
        months_contracts(lo, hi - 1) + monthly_contracts(hi)
    }
}

/// `"ECF FMZ00{yy:02}!"`: the December carbon contract of a year.
pub open spec fn ecf_contract_text(year: int) -> Seq<char> {
    "ECF FMZ00"@ + signed_zero_padded(rem_trunc(year, 100), 2) + "!"@
}

/// One December carbon contract per year from `lo` to `hi`, in order.
pub open spec fn years_contracts(lo: int, hi: int) -> Seq<ContractSpec>
    decreases hi - lo + 1,
{
    if hi < lo {
        Seq::empty()
    } else {
        years_contracts(lo, hi - 1).push((Dataset::NdexImpact, ecf_contract_text(hi), "EUA"@, "EUR/t"@))
    }
}

/// Every contract generated for a date range, before sorting: the monthly
/// contracts from the month after `start` through three months after `end`,
/// then one carbon contract per year up to that last month's year.
pub open spec fn css_candidates(start: Date, end: Date) -> Seq<ContractSpec> {
    let s = add_months_spec(start, 1);
    let e = add_months_spec(end, 3);
    months_contracts(month_index(s.year as int, s.month as int), month_index(e.year as int, e.month as int))
        + years_contracts(start.year as int, e.year as int)
}

/// A contract belongs to one of the instruments: it carries that
/// instrument's ticker, dataset and unit, and its raw symbol starts with the
/// instrument symbol's three-letter root.
pub open spec fn follows_instrument(c: ContractSpec) -> bool {
    exists|i: int| 0 <= i < instrument_table().len()
        && (#[trigger] instrument_table()[i]).0 == c.2
        && instrument_table()[i].1 == c.0
        && instrument_table()[i].3 == c.3
        && c.1.len() >= 3
        && c.1.take(3) == instrument_table()[i].2.take(3)
}

proof fn lemma_monthly_follow(mi: int)
    ensures
        forall|k: int| 0 <= k < monthly_contracts(mi).len() ==> follows_instrument(#[trigger] monthly_contracts(mi)[k]),
{
    reveal_strlit("TTF");
    reveal_strlit("GAB");
    reveal_strlit("ARA");
    reveal_strlit("TFM");
    reveal_strlit("ATW");
    reveal_strlit("TFM.FUT");
    reveal_strlit("GAB.FUT");
    reveal_strlit("ATW.FUT");
    let t = instrument_table();
    assert(monthly_contract_text("TFM"@, mi).take(3) =~= t[0].2.take(3));
    assert(monthly_contract_text("GAB"@, mi).take(3) =~= t[3].2.take(3));
    assert(monthly_contract_text("ATW"@, mi).take(3) =~= t[2].2.take(3));
    assert(follows_instrument(monthly_contracts(mi)[0]));
    assert(follows_instrument(monthly_contracts(mi)[1]));
    assert(follows_instrument(monthly_contracts(mi)[2]));
}

proof fn lemma_months_follow(lo: int, hi: int)
    ensures
        forall|k: int| 0 <= k < months_contracts(lo, hi).len() ==> follows_instrument(#[trigger] months_contracts(lo, hi)[k]),
    decreases hi - lo + 1,
{
    if hi >= lo {
        lemma_months_follow(lo, hi - 1);
        lemma_monthly_follow(hi);
        let a = months_contracts(lo, hi - 1);
        let b = monthly_contracts(hi);
        assert forall|k: int| 0 <= k < months_contracts(lo, hi).len() implies follows_instrument(#[trigger] months_contracts(lo, hi)[k]) by {
            if k < a.len() {
                assert(months_contracts(lo, hi)[k] == a[k]);
            } else {
                assert(months_contracts(lo, hi)[k] == b[k - a.len()]);
            }
        }
    }
}

proof fn lemma_years_follow(lo: int, hi: int)
    ensures
        forall|k: int| 0 <= k < years_contracts(lo, hi).len() ==> follows_instrument(#[trigger] years_contracts(lo, hi)[k]),
    decreases hi - lo + 1,
{
    if hi >= lo {
        lemma_years_follow(lo, hi - 1);
        reveal_strlit("EUA");
        reveal_strlit("ECF FMZ00");
        reveal_strlit("ECF.FUT");
        let t = instrument_table();
        let x: ContractSpec = (Dataset::NdexImpact, ecf_contract_text(hi), "EUA"@, "EUR/t"@);
        assert(ecf_contract_text(hi).take(3) =~= t[1].2.take(3));
        assert(follows_instrument(x));
        let a = years_contracts(lo, hi - 1);
        assert forall|k: int| 0 <= k < years_contracts(lo, hi).len() implies follows_instrument(#[trigger] years_contracts(lo, hi)[k]) by {
            if k < a.len() {
                assert(years_contracts(lo, hi)[k] == a[k]);
            }
        }
    }
}

/// Every contract listed for a range belongs to an instrument of the table
/// and is requested from that instrument's dataset, with its ticker and unit.
pub proof fn law_contracts_follow_instruments(start: Date, end: Date)
    ensures
        forall|k: int| 0 <= k < css_candidates(start, end).len()
            ==> follows_instrument(#[trigger] css_candidates(start, end)[k]),
{
    let s = add_months_spec(start, 1);
    let e = add_months_spec(end, 3);
    let lo = month_index(s.year as int, s.month as int);
    let hi = month_index(e.year as int, e.month as int);
    lemma_months_follow(lo, hi);
    lemma_years_follow(start.year as int, e.year as int);
    let a = months_contracts(lo, hi);
    let b = years_contracts(start.year as int, e.year as int);
    assert forall|k: int| 0 <= k < css_candidates(start, end).len() implies follows_instrument(#[trigger] css_candidates(start, end)[k]) by {
        if k < a.len() {
            assert(css_candidates(start, end)[k] == a[k]);
        } else {
            assert(css_candidates(start, end)[k] == b[k - a.len()]);
        }
    }
}

/// The sort key of a symbol: its characters' code points (the order of Rust strings).
pub open spec fn symbol_key(s: Seq<char>) -> Seq<i64> {
    s.map_values(|c: char| (c as u32) as i64)
}

pub open spec fn candidate_keys(g: Seq<ContractSpec>) -> Seq<Seq<i64>> {
    g.map_values(|c: ContractSpec| symbol_key(c.1))
}

/// The range can be walked: the first and last months exist, and when the
/// walk runs, the month after the last one exists too.
pub open spec fn css_range_defined(start: Date, end: Date) -> bool {
    let s = add_months_spec(start, 1);
    let e = add_months_spec(end, 3);
    &&& start.valid()
    &&& end.valid()
    &&& add_months_defined(start, 1)
    &&& add_months_defined(end, 3)
    &&& month_index(s.year as int, s.month as int) <= month_index(e.year as int, e.month as int)
        ==> add_months_defined(Date { year: e.year, month: e.month, day: 1 }, 1)
}

/// The key of a symbol string.
pub fn symbol_key_of(s: &String) -> (k: Vec<i64>)
    ensures
        k@ == symbol_key(s@),
{
    let cs = chars_of(s.as_str());
    let mut k: Vec<i64> = Vec::new();
    let mut i: usize = 0;
    while i < cs.len()
        invariant
            cs@ == s@,
            i <= cs.len(),
            k@ == symbol_key(cs@.take(i as int)),
        decreases cs.len() - i,
    {
        let c = cs[i];
        k.push(c as u32 as i64);
        assert(k@ =~= symbol_key(cs@.take(i + 1)));
        i = i + 1;
    }
    assert(cs@.take(cs.len() as int) =~= cs@);
    k
}

fn monthly_symbol(prefix: &str, code: char, yy: i32) -> (r: String)
    requires
        -100 < yy < 100,
    ensures
        r@ == prefix@ + " FM"@ + seq![code] + "00"@ + signed_zero_padded(yy as int, 2) + "!"@,
{
    let mut s = owned(prefix);
    push_str(&mut s, " FM");
    push_char(&mut s, code);
    push_str(&mut s, "00");
    push_signed_zero_padded(&mut s, yy as i64, 2);
    push_str(&mut s, "!");
    s
}

fn copy_contract(c: &ContractSymbol) -> (r: ContractSymbol)
    ensures
        contract_view(r) == contract_view(*c),
{
    ContractSymbol {
        dataset: c.dataset,
        raw_symbol: c.raw_symbol.clone(),
        ticker: c.ticker.clone(),
        unit: c.unit.clone(),
    }
}

proof fn lemma_month_index_parts(y: int, m: int)
    requires
        1 <= m <= 12,
    ensures
        month_index(y, m) / 12 == y,
        month_index(y, m) % 12 + 1 == m,
{
    assert(month_index(y, m) == y * 12 + (m - 1));
}

/// Whether the contracts of a date range can be listed (every month the
/// walk visits exists in the calendar).
pub fn css_range_supported(start_date: Date, end_date: Date) -> (r: bool)
    ensures
        r == css_range_defined(start_date, end_date),
{
    if !months_ahead_supported(start_date, 1) || !months_ahead_supported(end_date, 3) {
        return false;
    }
    let s = add_months(start_date, 1);
    let e = add_months(end_date, 3);
    let first = (s.year as i64) * 12 + (s.month as i64 - 1);
    let last = (e.year as i64) * 12 + (e.month as i64 - 1);
    if first <= last {
        months_ahead_supported(Date { year: e.year, month: e.month, day: 1 }, 1)
    } else {
        true
    }
}

/// Every exact contract symbol needed for rolling three-month spreads over a
/// date range, sorted by symbol with repeated symbols dropped (the first kept).
pub fn css_contract_symbols(start_date: Date, end_date: Date) -> (r: Vec<ContractSymbol>)
    requires
        css_range_defined(start_date, end_date),
    ensures
        ({
            let g = css_candidates(start_date, end_date);
            exists|ord: Seq<usize>|
                is_stable_order(candidate_keys(g), ord)
                && r@.map_values(|c: ContractSymbol| contract_view(c))
                    == first_of_runs(ord, candidate_keys(g)).map_values(|k: usize| g[k as int])
        }),
        forall|t: int| 0 <= t < r.len() ==> follows_instrument(contract_view(#[trigger] r@[t])),
{
    let sym_start = add_months(start_date, 1);
    let sym_end = add_months(end_date, 3);
    let ghost s_mi = month_index(sym_start.year as int, sym_start.month as int);
    let ghost e_mi = month_index(sym_end.year as int, sym_end.month as int);
    let mut cursor = Date { year: sym_start.year, month: sym_start.month, day: 1 };
    let sym_end_month = Date { year: sym_end.year, month: sym_end.month, day: 1 };
    let mut symbols: Vec<ContractSymbol> = Vec::new();
    while on_or_before(cursor, sym_end_month)
        invariant
            css_range_defined(start_date, end_date),
            sym_end == add_months_spec(end_date, 3),
            sym_end.valid(),
            sym_end_month == (Date { year: sym_end.year, month: sym_end.month, day: 1 }),
            e_mi == month_index(sym_end.year as int, sym_end.month as int),
            s_mi == month_index(sym_start.year as int, sym_start.month as int),
            s_mi == month_index(add_months_spec(start_date, 1).year as int, add_months_spec(start_date, 1).month as int),
            cursor.valid(),
            cursor.day == 1,
            s_mi <= month_index(cursor.year as int, cursor.month as int),
            month_index(cursor.year as int, cursor.month as int) <= e_mi + 1
                || month_index(cursor.year as int, cursor.month as int) == s_mi,
            symbols@.map_values(|c: ContractSymbol| contract_view(c))
                == months_contracts(s_mi, month_index(cursor.year as int, cursor.month as int) - 1),
        decreases e_mi + 1 - month_index(cursor.year as int, cursor.month as int),
    {
        let ghost mi = month_index(cursor.year as int, cursor.month as int);
        proof {
            lemma_month_index_parts(cursor.year as int, cursor.month as int);
            lemma_month_index_parts(sym_end.year as int, sym_end.month as int);
        }
        let code = match month_to_ice_code(cursor.month) {
            Some(c) => c,
            None => 'Z',
        };
        let yy = two_digit_year(cursor.year);
        let ghost before = symbols@.map_values(|c: ContractSymbol| contract_view(c));
        symbols.push(ContractSymbol {
            dataset: Dataset::NdexImpact,
            raw_symbol: monthly_symbol("TFM", code, yy),
            ticker: owned("TTF"),
            unit: owned("EUR/MWh"),
        });
        symbols.push(ContractSymbol {
            dataset: Dataset::NdexImpact,
            raw_symbol: monthly_symbol("GAB", code, yy),
            ticker: owned("GAB"),
            unit: owned("EUR/MWh"),
        });
        symbols.push(ContractSymbol {
            dataset: Dataset::IfeuImpact,
            raw_symbol: monthly_symbol("ATW", code, yy),
            ticker: owned("ARA"),
            unit: owned("USD/t"),
        });
        assert(symbols@.map_values(|c: ContractSymbol| contract_view(c)) =~= before + monthly_contracts(mi));
        proof {
            if mi == e_mi {
                assert(add_months_defined(Date { year: sym_end.year, month: sym_end.month, day: 1 }, 1));
            } else {
                assert(mi < e_mi);
                assert(cursor.year < MAX_YEAR || cursor.month < 12);
            }
        }
        cursor = add_months(cursor, 1);
        proof {
            lemma_month_index_parts(cursor.year as int, cursor.month as int);
            assert(month_index(cursor.year as int, cursor.month as int) == mi + 1);
        }
    }
    let ghost after_months = symbols@.map_values(|c: ContractSymbol| contract_view(c));
    proof {
        if s_mi > e_mi {
            assert(months_contracts(s_mi, s_mi - 1) =~= Seq::<ContractSpec>::empty());
            assert(months_contracts(s_mi, e_mi) =~= Seq::<ContractSpec>::empty());
        }
    }
    assert(after_months == months_contracts(s_mi, e_mi));
    let first_year = start_date.year;
    let last_year = sym_end.year;
    let mut year: i32 = first_year;
    while year <= last_year
        invariant
            first_year <= year <= last_year + 1 || (year == first_year && first_year > last_year),
            MIN_YEAR <= first_year,
            last_year <= MAX_YEAR,
            symbols@.map_values(|c: ContractSymbol| contract_view(c))
                == after_months + years_contracts(first_year as int, year as int - 1),
        decreases last_year + 1 - year,
    {
        let ghost before = symbols@.map_values(|c: ContractSymbol| contract_view(c));
        let yy = two_digit_year(year);
        let mut raw = owned("ECF FMZ00");
        push_signed_zero_padded(&mut raw, yy as i64, 2);
        push_str(&mut raw, "!");
        assert(raw@ =~= ecf_contract_text(year as int));
        symbols.push(ContractSymbol {
            dataset: Dataset::NdexImpact,
            raw_symbol: raw,
            ticker: owned("EUA"),
            unit: owned("EUR/t"),
        });
        let ghost item: ContractSpec = (Dataset::NdexImpact, ecf_contract_text(year as int), "EUA"@, "EUR/t"@);
        assert(contract_view(symbols@[symbols@.len() - 1]) == item);
        assert(symbols@.map_values(|c: ContractSymbol| contract_view(c)) =~= before.push(item));
        assert(years_contracts(first_year as int, year as int)
            == years_contracts(first_year as int, year as int - 1).push(item));
        assert(before.push(item) =~= after_months + years_contracts(first_year as int, year as int - 1).push(item));
        assert(symbols@.map_values(|c: ContractSymbol| contract_view(c))
            =~= after_months + years_contracts(first_year as int, year as int));
        year = year + 1;
    }
    let ghost g = symbols@.map_values(|c: ContractSymbol| contract_view(c));
    assert(g == css_candidates(start_date, end_date));
    let mut keys: Vec<Vec<i64>> = Vec::new();
    let mut i: usize = 0;
    while i < symbols.len()
        invariant
            g == symbols@.map_values(|c: ContractSymbol| contract_view(c)),
            i <= symbols.len(),
            key_views(keys@) == candidate_keys(g).take(i as int),
        decreases symbols.len() - i,
    {
        let k = symbol_key_of(&symbols[i].raw_symbol);
        assert(g[i as int].1 == symbols@[i as int].raw_symbol@);
        let ghost old_keys = keys@;
        keys.push(k);
        assert(key_views(keys@) =~= key_views(old_keys).push(k@));
        assert(candidate_keys(g)[i as int] == symbol_key(g[i as int].1));
        assert(candidate_keys(g).take(i + 1) =~= candidate_keys(g).take(i as int).push(candidate_keys(g)[i as int]));
        assert(key_views(keys@) =~= candidate_keys(g).take(i + 1));
        i = i + 1;
    }
    assert(key_views(keys@) =~= candidate_keys(g));
    let ord = stable_order(&keys);
    let kept = dedup_runs(&ord, &keys);
    let ghost kept_spec = first_of_runs(ord@, candidate_keys(g));
    proof {
        crate::ordering::lemma_first_of_runs_within(ord@, candidate_keys(g));
    }
    let mut r: Vec<ContractSymbol> = Vec::new();
    let mut j: usize = 0;
    while j < kept.len()
        invariant
            g == symbols@.map_values(|c: ContractSymbol| contract_view(c)),
            kept@ == kept_spec,
            forall|t: int| 0 <= t < kept_spec.len() ==> (#[trigger] kept_spec[t]) < g.len(),
            j <= kept.len(),
            r@.map_values(|c: ContractSymbol| contract_view(c))
                == kept_spec.take(j as int).map_values(|k: usize| g[k as int]),
        decreases kept.len() - j,
    {
        let c = copy_contract(&symbols[kept[j]]);
        assert(contract_view(c) == g[kept_spec[j as int] as int]);
        let ghost old_r = r@;
        r.push(c);
        assert(r@.map_values(|c: ContractSymbol| contract_view(c))
            =~= old_r.map_values(|c: ContractSymbol| contract_view(c)).push(g[kept_spec[j as int] as int]));
        assert(kept_spec.take(j + 1).map_values(|k: usize| g[k as int])
            =~= kept_spec.take(j as int).map_values(|k: usize| g[k as int]).push(g[kept_spec[j as int] as int]));
        assert(r@.map_values(|c: ContractSymbol| contract_view(c))
            =~= kept_spec.take(j + 1).map_values(|k: usize| g[k as int]));
        j = j + 1;
    }
    assert(kept_spec.take(kept.len() as int) =~= kept_spec);
    proof {
        law_contracts_follow_instruments(start_date, end_date);
        assert forall|t: int| 0 <= t < r.len() implies follows_instrument(contract_view(#[trigger] r@[t])) by {
            assert(contract_view(r@[t]) == r@.map_values(|c: ContractSymbol| contract_view(c))[t]);
            assert(contract_view(r@[t]) == g[kept_spec[t] as int]);
        }
    }
    r
}

} // verus!
