//! Exchange contract symbols for the rolling three-month clean spark spread.

use vstd::prelude::*;
use crate::calendar::{Date, MAX_YEAR, MIN_YEAR, month_length, month_days};
use crate::text::{owned, push_char, push_str, push_signed_zero_padded, signed_zero_padded};

verus! {

/// ICE month code of a calendar month.
pub open spec fn ice_month_code(month: int) -> Option<char> {
    if month == 1 { Some('F') }
    else if month == 2 { Some('G') }
    else if month == 3 { Some('H') }
    else if month == 4 { Some('J') }
    else if month == 5 { Some('K') }
    else if month == 6 { Some('M') }
    else if month == 7 { Some('N') }
    else if month == 8 { Some('Q') }
    else if month == 9 { Some('U') }
    else if month == 10 { Some('V') }
    else if month == 11 { Some('X') }
    else if month == 12 { Some('Z') }
    else { None }
}

/// ICE month code of `month`; `None` outside 1..=12.
pub fn month_to_ice_code(month: u32) -> (r: Option<char>)
    ensures
        r == ice_month_code(month as int),
{
    match month {
        1 => Some('F'),
        2 => Some('G'),
        3 => Some('H'),
        4 => Some('J'),
        5 => Some('K'),
        6 => Some('M'),
        7 => Some('N'),
        8 => Some('Q'),
        9 => Some('U'),
        10 => Some('V'),
        11 => Some('X'),
        12 => Some('Z'),
        _ => None,
    }
}

/// Length of `month` in `year`, computed as the day before the first of the
/// following month; that following month must itself be a supported date.
pub fn days_in_month(year: i32, month: u32) -> (r: u32)
    requires
        MIN_YEAR <= year <= MAX_YEAR,
        1 <= month <= 12,
        !(month == 12 && year == MAX_YEAR),
    ensures
        r == month_length(year as int, month as int),
{
    month_days(year, month)
}

/// Year, month and day of `months` calendar months after `d`, the day clamped
/// to the end of the resulting month.
pub open spec fn add_months_spec(d: Date, months: int) -> Date {
    let total = (d.month - 1) + months;
    let y = d.year + total / 12;
    let m = total % 12 + 1;
    let md = month_length(y, m);
    Date { year: y as i32, month: m as u32, day: (if d.day <= md { d.day as int } else { md }) as u32 }
}

/// `months` months can be added to `d`: the month count fits, the resulting
/// year is supported, and it is not the last December of the calendar (whose
/// following month does not exist).
pub open spec fn add_months_defined(d: Date, months: int) -> bool {
    let total = (d.month - 1) + months;
    let y = d.year + total / 12;
    let m = total % 12 + 1;
    &&& 0 <= months
    &&& total <= u32::MAX
    &&& MIN_YEAR <= y <= MAX_YEAR
    &&& !(m == 12 && y == MAX_YEAR)
}

/// Adds calendar months, clamping the day to the last valid day of the
/// resulting month.
/// Whether `months` months can be added to a supported date.
pub fn months_ahead_supported(date: Date, months: u32) -> (r: bool)
    ensures
        r == (date.valid() && add_months_defined(date, months as int)),
{
    if !(MIN_YEAR <= date.year && date.year <= MAX_YEAR && 1 <= date.month && date.month <= 12 && 1 <= date.day) {
        return false;
    }
    if date.day > month_days(date.year, date.month) {
        return false;
    }
    let total: u64 = (date.month - 1) as u64 + months as u64;
    if total > u32::MAX as u64 {
        return false;
    }
    let y: i64 = date.year as i64 + (total / 12) as i64;
    let m: u64 = total % 12 + 1;
    MIN_YEAR as i64 <= y && y <= MAX_YEAR as i64 && !(m == 12 && y == MAX_YEAR as i64)
}

pub fn add_months(date: Date, months: u32) -> (r: Date)
    requires
        date.valid(),
        add_months_defined(date, months as int),
    ensures
        r == add_months_spec(date, months as int),
        r.valid(),
{
    let total = date.month0() + months;
    let year = date.year + (total / 12) as i32;
    let month = (total % 12) + 1;
    let max_day = days_in_month(year, month);
    let day = if date.day <= max_day { date.day } else { max_day };
    Date { year, month, day }
}

/// Rust's `%` on integers: the remainder takes the sign of the dividend.
pub open spec fn rem_trunc(v: int, m: int) -> int {
    if v >= 0 { v % m } else { -((-v) % m) }
}

/// The last two digits of a year, signed as `year % 100` is in Rust.
pub fn two_digit_year(year: i32) -> (r: i32)
    requires
        MIN_YEAR <= year <= MAX_YEAR,
    ensures
        r == rem_trunc(year as int, 100),
        -100 < r < 100,
{
    if year >= 0 {
        year % 100
    } else {
        -((-year) % 100)
    }
}

/// `"{parent} FM{code}{yy:04}!"` for a target month.
pub open spec fn ice_symbol_text(parent: Seq<char>, code: char, year: int) -> Seq<char> {
    parent + " FM"@ + seq![code] + signed_zero_padded(rem_trunc(year, 100), 4) + "!"@
}

/// ICE raw symbol of the monthly contract `months_forward` months after `base`.
pub fn get_ice_symbol(parent: &str, months_forward: u32, base: Date) -> (r: String)
    requires
        base.valid(),
        add_months_defined(base, months_forward as int),
    ensures
        ({
            let t = add_months_spec(base, months_forward as int);
            r@ == ice_symbol_text(parent@, ice_month_code(t.month as int)->0, t.year as int)
        }),
{
    let target = add_months(base, months_forward);
    let month_code = match month_to_ice_code(target.month) {
        Some(c) => c,
        None => 'Z',
    };
    let year_2d = two_digit_year(target.year);
    let mut s = owned(parent);
    push_str(&mut s, " FM");
    push_char(&mut s, month_code);
    push_signed_zero_padded(&mut s, year_2d as i64, 4);
    push_str(&mut s, "!");
    s
}

/// `"ECF FMZ{yy:04}!"`: the December carbon contract of the base year.
pub open spec fn ecf_symbol_text(year: int) -> Seq<char> {
    "ECF FMZ"@ + signed_zero_padded(rem_trunc(year, 100), 4) + "!"@
}

/// ECF always uses the December contract of the base date's calendar year.
pub fn get_ecf_symbol(base: Date) -> (r: String)
    requires
        base.valid(),
    ensures
        r@ == ecf_symbol_text(base.year as int),
{
    let year_2d = two_digit_year(base.year);
    let mut s = owned("ECF FMZ");
    push_signed_zero_padded(&mut s, year_2d as i64, 4);
    push_str(&mut s, "!");
    s
}


/// The seven contracts a spread calculation reads: gas and power for the next
/// three months, and the December carbon contract.
#[derive(Debug)]
pub struct CssSymbols {
    pub gas: Vec<String>,
    pub power: Vec<String>,
    pub carbon: String,
}

pub open spec fn month_symbol(parent: Seq<char>, base: Date, k: int) -> Seq<char> {
    let t = add_months_spec(base, k);
    ice_symbol_text(parent, ice_month_code(t.month as int)->0, t.year as int)
}

/// The contracts for a calculation date.
pub fn css_symbols(calc_date: Date) -> (r: CssSymbols)
    requires
        calc_date.valid(),
        add_months_defined(calc_date, 1),
        add_months_defined(calc_date, 2),
        add_months_defined(calc_date, 3),
    ensures
        r.gas.len() == 3,
        r.power.len() == 3,
        forall|k: int| 0 <= k < 3 ==> (#[trigger] r.gas@[k])@ == month_symbol("TFM"@, calc_date, k + 1),
        forall|k: int| 0 <= k < 3 ==> (#[trigger] r.power@[k])@ == month_symbol("GAB"@, calc_date, k + 1),
        r.carbon@ == ecf_symbol_text(calc_date.year as int),
{
    let mut gas: Vec<String> = Vec::new();
    gas.push(get_ice_symbol("TFM", 1, calc_date));
    gas.push(get_ice_symbol("TFM", 2, calc_date));
    gas.push(get_ice_symbol("TFM", 3, calc_date));
    let mut power: Vec<String> = Vec::new();
    power.push(get_ice_symbol("GAB", 1, calc_date));
    power.push(get_ice_symbol("GAB", 2, calc_date));
    power.push(get_ice_symbol("GAB", 3, calc_date));
    let carbon = get_ecf_symbol(calc_date);
    proof {
        assert forall|k: int| 0 <= k < 3 implies (#[trigger] gas@[k])@ == month_symbol("TFM"@, calc_date, k + 1) by {
            if k == 0 {} else if k == 1 {} else {}
        }
        assert forall|k: int| 0 <= k < 3 implies (#[trigger] power@[k])@ == month_symbol("GAB"@, calc_date, k + 1) by {
            if k == 0 {} else if k == 1 {} else {}
        }
    }
    CssSymbols { gas, power, carbon }
}

impl CssSymbols {
    /// Gas, then power, then carbon.
    pub fn all_symbols(&self) -> (r: Vec<String>)
        ensures
            r@.map_values(|x: String| x@) == self.gas@.map_values(|x: String| x@)
                + self.power@.map_values(|x: String| x@) + seq![self.carbon@],
    {
        let mut r: Vec<String> = Vec::new();
        let mut i: usize = 0;
        while i < self.gas.len()
            invariant
                i <= self.gas.len(),
                r@.map_values(|x: String| x@) == self.gas@.map_values(|x: String| x@).take(i as int),
            decreases self.gas.len() - i,
        {
            let ghost old_r = r@;
            r.push(self.gas[i].clone());
            assert(r@.map_values(|x: String| x@) =~= old_r.map_values(|x: String| x@).push(self.gas@[i as int]@));
            assert(self.gas@.map_values(|x: String| x@).take(i + 1)
                =~= self.gas@.map_values(|x: String| x@).take(i as int).push(self.gas@[i as int]@));
            i = i + 1;
        }
        let ghost gas_part = self.gas@.map_values(|x: String| x@);
        assert(gas_part.take(self.gas.len() as int) =~= gas_part);
        let mut j: usize = 0;
        while j < self.power.len()
            invariant
                j <= self.power.len(),
                gas_part == self.gas@.map_values(|x: String| x@),
                r@.map_values(|x: String| x@) == gas_part + self.power@.map_values(|x: String| x@).take(j as int),
            decreases self.power.len() - j,
        {
            let ghost old_r = r@;
            r.push(self.power[j].clone());
            assert(r@.map_values(|x: String| x@) =~= old_r.map_values(|x: String| x@).push(self.power@[j as int]@));
            assert(self.power@.map_values(|x: String| x@).take(j + 1)
                =~= self.power@.map_values(|x: String| x@).take(j as int).push(self.power@[j as int]@));
            j = j + 1;
        }
        let ghost power_part = self.power@.map_values(|x: String| x@);
        assert(power_part.take(self.power.len() as int) =~= power_part);
        let ghost old_r = r@;
        r.push(self.carbon.clone());
        assert(r@.map_values(|x: String| x@) =~= old_r.map_values(|x: String| x@).push(self.carbon@));
        assert(r@.map_values(|x: String| x@) =~= gas_part + power_part + seq![self.carbon@]);
        r
    }
}

/// The carbon symbol is the ICE symbol format applied to the December code:
/// ECF always names the December contract of the base year.
pub proof fn law_ecf_is_december_contract(base: Date)
    requires
        base.valid(),
    ensures
        ecf_symbol_text(base.year as int) == ice_symbol_text("ECF"@, ice_month_code(12)->0, base.year as int),
{
    assert(("ECF"@ + " FM"@ + seq!['Z']) =~= "ECF FMZ"@) by {
        reveal_strlit("ECF");
        reveal_strlit(" FM");
        reveal_strlit("ECF FMZ");
    }
}

/// Adding `n` months moves the month index forward by exactly `n`, and never
/// moves the day later than it was.
pub proof fn law_add_months_counts_months(d: Date, n: int)
    requires
        d.valid(),
        add_months_defined(d, n),
    ensures
        add_months_spec(d, n).year * 12 + add_months_spec(d, n).month
            == d.year * 12 + d.month + n,
        add_months_spec(d, n).day <= d.day,
        add_months_spec(d, n).valid(),
{
}

/// Position of the last row quoting `sym` (later rows replace earlier ones).
pub open spec fn last_row_of(rows: Seq<Seq<char>>, sym: Seq<char>) -> Option<int>
    decreases rows.len(),
{
    if rows.len() == 0 {
        None
    } else if rows.last() == sym {
        Some(rows.len() - 1)
    } else {
        last_row_of(rows.drop_last(), sym)
    }
}

/// The symbols that no row quotes, in their original order.
pub open spec fn unpriced(wanted: Seq<Seq<char>>, rows: Seq<Seq<char>>) -> Seq<Seq<char>>
    decreases wanted.len(),
{
    if wanted.len() == 0 {
        Seq::empty()
    } else if last_row_of(rows, wanted.last()) is None {
        unpriced(wanted.drop_last(), rows).push(wanted.last())
    } else {
        unpriced(wanted.drop_last(), rows)
    }
}

fn find_last_row(rows: &Vec<String>, sym: &String) -> (r: Option<usize>)
    ensures
        r matches Some(k) ==> last_row_of(rows@.map_values(|x: String| x@), sym@) == Some(k as int),
        r is None ==> last_row_of(rows@.map_values(|x: String| x@), sym@) is None,
{
    let ghost rv = rows@.map_values(|x: String| x@);
    let mut i: usize = rows.len();
    assert(rv.take(i as int) =~= rv);
    while i > 0
        invariant
            i <= rows.len(),
            rv == rows@.map_values(|x: String| x@),
            last_row_of(rv, sym@) == last_row_of(rv.take(i as int), sym@),
        decreases i,
    {
        assert(rv.take(i as int).drop_last() =~= rv.take(i - 1));
        assert(rv.take(i as int).last() == rows@[i - 1]@);
        if rows[i - 1] == *sym {
            return Some(i - 1);
        }
        i = i - 1;
    }
    None
}

/// For each wanted symbol, the row that prices it (its last quote); or, when
/// some symbol has no row at all, those symbols in order.
pub fn price_rows(wanted: &Vec<String>, row_symbols: &Vec<String>) -> (r: Result<Vec<usize>, Vec<String>>)
    ensures
        ({
            let w = wanted@.map_values(|x: String| x@);
            let rows = row_symbols@.map_values(|x: String| x@);
            match r {
                Ok(idx) => unpriced(w, rows).len() == 0 && idx.len() == w.len()
                    && forall|k: int| 0 <= k < w.len() ==> last_row_of(rows, w[k]) == Some(#[trigger] idx@[k] as int),
                Err(missing) => unpriced(w, rows).len() > 0 && missing@.map_values(|x: String| x@) == unpriced(w, rows),
            }
        }),
{
    let ghost w = wanted@.map_values(|x: String| x@);
    let ghost rows = row_symbols@.map_values(|x: String| x@);
    let mut idx: Vec<usize> = Vec::new();
    let mut missing: Vec<String> = Vec::new();
    let mut i: usize = 0;
    while i < wanted.len()
        invariant
            i <= wanted.len(),
            w == wanted@.map_values(|x: String| x@),
            rows == row_symbols@.map_values(|x: String| x@),
            missing@.map_values(|x: String| x@) == unpriced(w.take(i as int), rows),
            missing.len() == 0 ==> idx.len() == i
                && forall|k: int| 0 <= k < i ==> last_row_of(rows, w[k]) == Some(#[trigger] idx@[k] as int),
        decreases wanted.len() - i,
    {
        assert(w.take(i + 1).drop_last() =~= w.take(i as int));
        assert(w.take(i + 1).last() == wanted@[i as int]@);
        let found = find_last_row(row_symbols, &wanted[i]);
        match found {
            Some(k) => {
                if missing.len() == 0 {
                    idx.push(k);
                }
            }
            None => {
                let ghost old_m = missing@;
                missing.push(wanted[i].clone());
                assert(missing@.map_values(|x: String| x@) =~= old_m.map_values(|x: String| x@).push(wanted@[i as int]@));
            }
        }
        i = i + 1;
    }
    assert(w.take(wanted.len() as int) =~= w);
    if missing.len() == 0 {
        Ok(idx)
    } else {
        Err(missing)
    }
}

} // verus!
