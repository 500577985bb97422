//! Parameters of the history endpoints: defaults, time buckets and the
//! reserve-product column whitelist.

use vstd::prelude::*;
use crate::text::{owned, same_text};

verus! {

/// Query parameters accepted by the history endpoints.
#[derive(Debug, Clone)]
pub struct HistoryParams {
    pub ticker: Option<String>,
    pub source: Option<String>,
    pub product: Option<String>,
    pub from: Option<String>,
    pub to: Option<String>,
    pub resolution: Option<String>,
}

/// The aggregation interval for a resolution name; daily for anything unknown.
pub open spec fn bucket_of(res: Seq<char>) -> Seq<char> {
    if res == "15min"@ {
        "15 minutes"@
    } else if res == "hourly"@ {
        "1 hour"@
    } else if res == "weekly"@ {
        "1 week"@
    } else if res == "monthly"@ {
        "1 month"@
    } else {
        "1 day"@
    }
}

/// Maps a resolution name to a time-bucket interval.
pub fn resolution_to_bucket(res: &str) -> (r: &'static str)
    ensures
        r@ == bucket_of(res@),
{
    if same_text(res, "15min") {
        "15 minutes"
    } else if same_text(res, "hourly") {
        "1 hour"
    } else if same_text(res, "weekly") {
        "1 week"
    } else if same_text(res, "monthly") {
        "1 month"
    } else {
        "1 day"
    }
}

/// The price column of a reserve product; the upward aFRR column for anything unknown.
pub open spec fn reserve_column_of(product: Seq<char>) -> Seq<char> {
    if product == "afrr_d"@ {
        "afrr_d_pln_mw"@
    } else if product == "afrr_g"@ {
        "afrr_g_pln_mw"@
    } else if product == "mfrrd_d"@ {
        "mfrrd_d_pln_mw"@
    } else if product == "mfrrd_g"@ {
        "mfrrd_g_pln_mw"@
    } else if product == "fcr_d"@ {
        "fcr_d_pln_mw"@
    } else if product == "fcr_g"@ {
        "fcr_g_pln_mw"@
    } else if product == "rr_g"@ {
        "rr_g_pln_mw"@
    } else {
        "afrr_g_pln_mw"@
    }
}

/// The whitelisted column holding a reserve product's prices.
pub fn reserve_column(product: &str) -> (r: &'static str)
    ensures
        r@ == reserve_column_of(product@),
{
    if same_text(product, "afrr_d") {
        "afrr_d_pln_mw"
    } else if same_text(product, "afrr_g") {
        "afrr_g_pln_mw"
    } else if same_text(product, "mfrrd_d") {
        "mfrrd_d_pln_mw"
    } else if same_text(product, "mfrrd_g") {
        "mfrrd_g_pln_mw"
    } else if same_text(product, "fcr_d") {
        "fcr_d_pln_mw"
    } else if same_text(product, "fcr_g") {
        "fcr_g_pln_mw"
    } else if same_text(product, "rr_g") {
        "rr_g_pln_mw"
    } else {
        "afrr_g_pln_mw"
    }
}

/// The reserve products whose prices the history endpoint serves.
pub open spec fn reserve_products() -> Seq<Seq<char>> {
    seq!["afrr_d"@, "afrr_g"@, "mfrrd_d"@, "mfrrd_g"@, "fcr_d"@, "fcr_g"@, "rr_g"@]
}

/// Each whitelisted product is read from its own column, named by the
/// product and `_pln_mw`; any other product falls back to the upward aFRR
/// column.
pub proof fn law_reserve_column_named_by_product(product: Seq<char>)
    ensures
        reserve_products().contains(product) ==> reserve_column_of(product) == product + "_pln_mw"@,
        !reserve_products().contains(product) ==> reserve_column_of(product) == "afrr_g_pln_mw"@,
{
    reveal_strlit("afrr_d");
    reveal_strlit("afrr_g");
    reveal_strlit("mfrrd_d");
    reveal_strlit("mfrrd_g");
    reveal_strlit("fcr_d");
    reveal_strlit("fcr_g");
    reveal_strlit("rr_g");
    reveal_strlit("_pln_mw");
    reveal_strlit("afrr_d_pln_mw");
    reveal_strlit("afrr_g_pln_mw");
    reveal_strlit("mfrrd_d_pln_mw");
    reveal_strlit("mfrrd_g_pln_mw");
    reveal_strlit("fcr_d_pln_mw");
    reveal_strlit("fcr_g_pln_mw");
    reveal_strlit("rr_g_pln_mw");
    let ps = reserve_products();
    assert("afrr_g"@[5] != "afrr_d"@[5]);
    assert("mfrrd_g"@[6] != "mfrrd_d"@[6]);
    assert("fcr_g"@[4] != "fcr_d"@[4]);
    if ps.contains(product) {
        let i = choose|i: int| 0 <= i < ps.len() && ps[i] == product;
        if i == 0 {
            assert(reserve_column_of(product) =~= product + "_pln_mw"@);
        } else if i == 1 {
            assert(product != "afrr_d"@);
            assert(reserve_column_of(product) =~= product + "_pln_mw"@);
        } else if i == 2 {
            assert(product != "afrr_d"@);
            assert(product != "afrr_g"@);
            assert(reserve_column_of(product) =~= product + "_pln_mw"@);
        } else if i == 3 {
            assert(product != "afrr_d"@);
            assert(product != "afrr_g"@);
            assert(product != "mfrrd_d"@);
            assert(reserve_column_of(product) =~= product + "_pln_mw"@);
        } else if i == 4 {
            assert(product != "afrr_d"@);
            assert(product != "afrr_g"@);
            assert(product != "mfrrd_d"@);
            assert(product != "mfrrd_g"@);
            assert(reserve_column_of(product) =~= product + "_pln_mw"@);
        } else if i == 5 {
            assert(product != "afrr_d"@);
            assert(product != "afrr_g"@);
            assert(product != "mfrrd_d"@);
            assert(product != "mfrrd_g"@);
            assert(product != "fcr_d"@);
            assert(reserve_column_of(product) =~= product + "_pln_mw"@);
        } else {
            assert(product != "afrr_d"@);
            assert(product != "afrr_g"@);
            assert(product != "mfrrd_d"@);
            assert(product != "mfrrd_g"@);
            assert(product != "fcr_d"@);
            assert(product != "fcr_g"@);
            assert(reserve_column_of(product) =~= product + "_pln_mw"@);
        }
    } else {
        assert(ps[0] == "afrr_d"@);
        assert(ps[1] == "afrr_g"@);
        assert(ps[2] == "mfrrd_d"@);
        assert(ps[3] == "mfrrd_g"@);
        assert(ps[4] == "fcr_d"@);
        assert(ps[5] == "fcr_g"@);
        assert(ps[6] == "rr_g"@);
    }
}

/// The history endpoints.
#[derive(Clone, Copy, Debug, PartialEq, Eq, Structural)]
pub enum HistoryKind {
    Fuels,
    Spreads,
    Curtailment,
    Reserves,
    Prices,
}

/// A history request with every default filled in.
#[derive(Debug)]
pub struct HistoryQuery {
    /// Ticker, product or source the response is labelled with.
    pub label: String,
    pub resolution: String,
    pub bucket: &'static str,
    pub from: String,
    pub to: String,
}

pub open spec fn or_default(v: Option<String>, d: Seq<char>) -> Seq<char> {
    match v {
        Some(s) => s@,
        None => d,
    }
}

/// The label each endpoint reports: the requested ticker, product or source,
/// or the endpoint's fixed name.
pub open spec fn history_label(kind: HistoryKind, p: HistoryParams) -> Seq<char> {
    match kind {
        HistoryKind::Fuels => or_default(p.ticker, "TTF"@),
        HistoryKind::Spreads => "spreads"@,
        HistoryKind::Curtailment => "curtailment"@,
        HistoryKind::Reserves => or_default(p.product, "afrr_g"@),
        HistoryKind::Prices => or_default(p.source, "PSE"@),
    }
}

/// Curtailment history starts at the beginning of 2026 by default, the others at 2025.
pub open spec fn default_from(kind: HistoryKind) -> Seq<char> {
    if kind == HistoryKind::Curtailment { "2026-01-01"@ } else { "2025-01-01"@ }
}

fn text_or(v: &Option<String>, d: &str) -> (r: String)
    ensures
        r@ == or_default(*v, d@),
{
    match v {
        Some(s) => s.clone(),
        None => owned(d),
    }
}

/// Fills in a history request's defaults; `today` is the end date used when
/// none is given.
pub fn resolve_history(kind: HistoryKind, params: &HistoryParams, today: &str) -> (q: HistoryQuery)
    ensures
        q.label@ == history_label(kind, *params),
        q.resolution@ == or_default(params.resolution, "daily"@),
        q.bucket@ == bucket_of(q.resolution@),
        q.from@ == or_default(params.from, default_from(kind)),
        q.to@ == or_default(params.to, today@),
{
    let label = match kind {
        HistoryKind::Fuels => text_or(&params.ticker, "TTF"),
        HistoryKind::Spreads => owned("spreads"),
        HistoryKind::Curtailment => owned("curtailment"),
        HistoryKind::Reserves => text_or(&params.product, "afrr_g"),
        HistoryKind::Prices => text_or(&params.source, "PSE"),
    };
    let resolution = text_or(&params.resolution, "daily");
    let bucket = resolution_to_bucket(resolution.as_str());
    let from = match kind {
        HistoryKind::Curtailment => text_or(&params.from, "2026-01-01"),
        _ => text_or(&params.from, "2025-01-01"),
    };
    let to = text_or(&params.to, today);
    HistoryQuery { label, resolution, bucket, from, to }
}

/// The price endpoint answers PSE with its three price series; other sources
/// get the single averaged series.
pub fn uses_pse_series(source: &str) -> (r: bool)
    ensures
        r == (source@ == "PSE"@),
{
    same_text(source, "PSE")
}

} // verus!
