//! Character-level helpers: decimal rendering, zero padding and string building.

use vstd::prelude::*;
use vstd::string::*;

verus! {

/// The ASCII digit for `d` (0..=9).
pub open spec fn digit_char(d: int) -> char {
    if d == 0 { '0' }
    else if d == 1 { '1' }
    else if d == 2 { '2' }
    else if d == 3 { '3' }
    else if d == 4 { '4' }
    else if d == 5 { '5' }
    else if d == 6 { '6' }
    else if d == 7 { '7' }
    else if d == 8 { '8' }
    else { '9' }
}

/// Decimal digits of `n`, most significant first, without leading zeros
/// (zero itself is the single digit `0`).
pub open spec fn decimal(n: nat) -> Seq<char>
    decreases n,
{
    if n < 10 {
        seq![digit_char(n as int)]
    } else {
        decimal(n / 10).push(digit_char((n % 10) as int))
    }
}

/// `n` in decimal, left-padded with `0` up to `width` characters.
pub open spec fn zero_padded(n: nat, width: nat) -> Seq<char> {
    let d = decimal(n);
    if d.len() >= width {
        d
    } else {
        Seq::new((width - d.len()) as nat, |i: int| '0') + d
    }
}

/// What Rust's `{:0W}` renders for an integer: the sign counts towards the width.
pub open spec fn signed_zero_padded(v: int, width: nat) -> Seq<char> {
    if v >= 0 {
        zero_padded(v as nat, width)
    } else {
        seq!['-'] + zero_padded((-v) as nat, if width >= 1 { (width - 1) as nat } else { 0 })
    }
}

/// What Rust's `{:+0W}` renders: an explicit sign, which counts towards the width.
pub open spec fn plus_signed_zero_padded(v: int, width: nat) -> Seq<char> {
    let w: nat = if width >= 1 { (width - 1) as nat } else { 0 };
    if v >= 0 {
        seq!['+'] + zero_padded(v as nat, w)
    } else {
        seq!['-'] + zero_padded((-v) as nat, w)
    }
}

/// Appends one character (std's `String::push`).
///
/// Claims what std documents: the text afterwards is the old text followed
/// by that character.
#[verifier::external_body]
pub(crate) fn push_char(s: &mut String, c: char)
    ensures
        final(s)@ == old(s)@.push(c),
{
    s.push(c);
}

fn digit_of(d: u64) -> (c: char)
    requires
        d < 10,
    ensures
        c == digit_char(d as int),
{
    match d {
        0 => '0',
        1 => '1',
        2 => '2',
        3 => '3',
        4 => '4',
        5 => '5',
        6 => '6',
        7 => '7',
        8 => '8',
        _ => '9',
    }
}

/// Appends the decimal digits of `n`.
pub fn push_decimal(s: &mut String, n: u64)
    ensures
        final(s)@ == old(s)@ + decimal(n as nat),
    decreases n,
{
    if n < 10 {
        push_char(s, digit_of(n));
        assert(decimal(n as nat) == seq![digit_char(n as int)]);
    } else {
        push_decimal(s, n / 10);
        push_char(s, digit_of(n % 10));
        assert(decimal(n as nat) == decimal((n / 10) as nat).push(digit_char((n % 10) as int)));
    }
}

/// Appends `n` zero-padded to `width` characters.
pub fn push_zero_padded(s: &mut String, n: u64, width: u64)
    ensures
        final(s)@ == old(s)@ + zero_padded(n as nat, width as nat),
{
    let ghost start = s@;
    let mut d = String::new();
    push_decimal(&mut d, n);
    assert(d@ =~= decimal(n as nat));
    let dl = d.as_str().unicode_len() as u64;
    let mut i: u64 = dl;
    while i < width
        invariant
            dl == decimal(n as nat).len(),
            dl <= i,
            i <= width || i == dl,
            s@ == start + Seq::new((i - dl) as nat, |k: int| '0'),
        decreases width - i,
    {
        push_char(s, '0');
        assert(s@ =~= start + Seq::new((i + 1 - dl) as nat, |k: int| '0'));
        i = i + 1;
    }
    push_str(s, d.as_str());
    assert(s@ =~= start + zero_padded(n as nat, width as nat));
}

/// Appends `v` as Rust's `{:0W}` renders it.
pub fn push_signed_zero_padded(s: &mut String, v: i64, width: u64)
    requires
        v > i64::MIN,
        width >= 1,
    ensures
        final(s)@ == old(s)@ + signed_zero_padded(v as int, width as nat),
{
    if v >= 0 {
        push_zero_padded(s, v as u64, width);
    } else {
        let ghost start = s@;
        push_char(s, '-');
        push_zero_padded(s, (-v) as u64, width - 1);
        assert(s@ =~= start + signed_zero_padded(v as int, width as nat));
    }
}

/// Appends `v` as Rust's `{:+0W}` renders it.
pub fn push_plus_signed_zero_padded(s: &mut String, v: i64, width: u64)
    requires
        v > i64::MIN,
        width >= 1,
    ensures
        final(s)@ == old(s)@ + plus_signed_zero_padded(v as int, width as nat),
{
    let ghost start = s@;
    if v >= 0 {
        push_char(s, '+');
        push_zero_padded(s, v as u64, width - 1);
    } else {
        push_char(s, '-');
        push_zero_padded(s, (-v) as u64, width - 1);
    }
    assert(s@ =~= start + plus_signed_zero_padded(v as int, width as nat));
}

/// Appends a whole string slice.
pub fn push_str(s: &mut String, t: &str)
    ensures
        final(s)@ == old(s)@ + t@,
{
    s.append(t);
}

/// A fresh `String` holding the characters of `t`.
pub fn owned(t: &str) -> (r: String)
    ensures
        r@ == t@,
{
    String::from_str(t)
}

/// The characters of `t`, one by one.
pub fn chars_of(t: &str) -> (r: Vec<char>)
    ensures
        r@ == t@,
{
    let n = t.unicode_len();
    let mut r: Vec<char> = Vec::new();
    let mut i: usize = 0;
    while i < n
        invariant
            n == t@.len(),
            i <= n,
            r@ == t@.subrange(0, i as int),
        decreases n - i,
    {
        let c = t.get_char(i);
        r.push(c);
        assert(r@ =~= t@.subrange(0, i + 1));
        i = i + 1;
    }
    assert(r@ =~= t@);
    r
}

/// Whether `t` begins with `prefix`.
pub fn starts_with(t: &Vec<char>, prefix: &str) -> (b: bool)
    ensures
        b == prefix@.is_prefix_of(t@),
{
    let p = chars_of(prefix);
    if p.len() > t.len() {
        return false;
    }
    let mut i: usize = 0;
    while i < p.len()
        invariant
            p@ == prefix@,
            p.len() <= t.len(),
            i <= p.len(),
            forall|k: int| 0 <= k < i ==> p@[k] == t@[k],
        decreases p.len() - i,
    {
        if p[i] != t[i] {
            return false;
        }
        i = i + 1;
    }
    assert(prefix@ =~= t@.subrange(0, prefix@.len() as int));
    true
}

/// Whether two strings hold the same characters.
pub fn same_text(a: &str, b: &str) -> (r: bool)
    ensures
        r == (a@ == b@),
{
    let x = owned(a);
    let y = owned(b);
    x == y
}


/// Unicode `White_Space`, as `char::is_whitespace` decides it.
pub open spec fn is_ws(c: char) -> bool {
    ||| c == ' '
    ||| ('\u{9}' <= c && c <= '\u{d}')
    ||| c == '\u{85}'
    ||| c == '\u{a0}'
    ||| c == '\u{1680}'
    ||| ('\u{2000}' <= c && c <= '\u{200a}')
    ||| c == '\u{2028}'
    ||| c == '\u{2029}'
    ||| c == '\u{202f}'
    ||| c == '\u{205f}'
    ||| c == '\u{3000}'
}

/// Whether `c` is white space.
pub fn is_whitespace(c: char) -> (r: bool)
    ensures
        r == is_ws(c),
{
    c == ' ' || ('\u{9}' <= c && c <= '\u{d}') || c == '\u{85}' || c == '\u{a0}' || c == '\u{1680}'
        || ('\u{2000}' <= c && c <= '\u{200a}') || c == '\u{2028}' || c == '\u{2029}'
        || c == '\u{202f}' || c == '\u{205f}' || c == '\u{3000}'
}

/// `s` without leading white space.
pub open spec fn trim_start(s: Seq<char>) -> Seq<char>
    decreases s.len(),
{
    if s.len() > 0 && is_ws(s[0]) { trim_start(s.drop_first()) } else { s }
}

/// `s` without trailing white space.
pub open spec fn trim_end(s: Seq<char>) -> Seq<char>
    decreases s.len(),
{
    if s.len() > 0 && is_ws(s.last()) { trim_end(s.drop_last()) } else { s }
}

/// `s` without leading or trailing white space (`str::trim`).
pub open spec fn trimmed(s: Seq<char>) -> Seq<char> {
    trim_end(trim_start(s))
}

proof fn lemma_trim_start_skip(s: Seq<char>, i: int)
    requires
        0 <= i <= s.len(),
        forall|k: int| 0 <= k < i ==> is_ws(#[trigger] s[k]),
    ensures
        trim_start(s) == trim_start(s.skip(i)),
    decreases i,
{
    if i > 0 {
        assert(s.skip(1) =~= s.drop_first());
        assert forall|k: int| 0 <= k < i - 1 implies is_ws(#[trigger] s.drop_first()[k]) by {
            assert(s.drop_first()[k] == s[k + 1]);
        }
        lemma_trim_start_skip(s.drop_first(), i - 1);
        assert(s.drop_first().skip(i - 1) =~= s.skip(i));
    } else {
        assert(s.skip(0) =~= s);
    }
}

proof fn lemma_trim_end_take(s: Seq<char>, j: int)
    requires
        0 <= j <= s.len(),
        forall|k: int| j <= k < s.len() ==> is_ws(#[trigger] s[k]),
    ensures
        trim_end(s) == trim_end(s.take(j)),
    decreases s.len() - j,
{
    if j < s.len() {
        assert(s.drop_last() =~= s.take(s.len() - 1));
        assert forall|k: int| j <= k < s.drop_last().len() implies is_ws(#[trigger] s.drop_last()[k]) by {
            assert(s.drop_last()[k] == s[k]);
        }
        lemma_trim_end_take(s.drop_last(), j);
        assert(s.drop_last().take(j) =~= s.take(j));
    } else {
        assert(s.take(j) =~= s);
    }
}

/// A `String` holding exactly the given characters.
pub fn string_from_chars(cs: &Vec<char>, from: usize, to: usize) -> (r: String)
    requires
        from <= to <= cs.len(),
    ensures
        r@ == cs@.subrange(from as int, to as int),
{
    let mut r = String::new();
    let mut i = from;
    while i < to
        invariant
            from <= i <= to <= cs.len(),
            r@ == cs@.subrange(from as int, i as int),
        decreases to - i,
    {
        push_char(&mut r, cs[i]);
        assert(r@ =~= cs@.subrange(from as int, i + 1));
        i = i + 1;
    }
    r
}

/// The characters `cs[from..to]` with surrounding white space removed.
pub fn trimmed_string(cs: &Vec<char>, from: usize, to: usize) -> (r: String)
    requires
        from <= to <= cs.len(),
    ensures
        r@ == trimmed(cs@.subrange(from as int, to as int)),
{
    let ghost piece = cs@.subrange(from as int, to as int);
    let mut a = from;
    while a < to && is_whitespace(cs[a])
        invariant
            from <= a <= to <= cs.len(),
            piece == cs@.subrange(from as int, to as int),
            forall|k: int| 0 <= k < a - from ==> is_ws(#[trigger] piece[k]),
        decreases to - a,
    {
        a = a + 1;
    }
    proof {
        lemma_trim_start_skip(piece, a - from);
        assert(piece.skip(a - from) =~= cs@.subrange(a as int, to as int));
        if a < to {
            assert(!is_ws(cs@.subrange(a as int, to as int)[0]));
        }
    }
    let ghost rest = cs@.subrange(a as int, to as int);
    assert(trim_start(piece) == rest);
    let mut b = to;
    while b > a && is_whitespace(cs[b - 1])
        invariant
            from <= a <= b <= to <= cs.len(),
            rest == cs@.subrange(a as int, to as int),
            forall|k: int| b - a <= k < rest.len() ==> is_ws(#[trigger] rest[k]),
        decreases b - a,
    {
        b = b - 1;
    }
    proof {
        lemma_trim_end_take(rest, b - a);
        assert(rest.take(b - a) =~= cs@.subrange(a as int, b as int));
    }
    string_from_chars(cs, a, b)
}

/// ASCII letters lowered; every other character unchanged.
pub open spec fn ascii_lower(c: char) -> char {
    if 'A' <= c <= 'Z' { ((c as u32) + 32) as char } else { c }
}

pub open spec fn is_dec_digit(c: char) -> bool {
    '0' <= c <= '9'
}

/// `Digit+ | Digit+ '.' Digit* | Digit* '.' Digit+`: digits with at most one
/// point and at least one digit.
pub open spec fn is_mantissa(m: Seq<char>) -> bool {
    &&& forall|i: int| 0 <= i < m.len() ==> is_dec_digit(#[trigger] m[i]) || m[i] == '.'
    &&& forall|i: int, j: int| 0 <= i < j < m.len() ==> !(#[trigger] m[i] == '.' && #[trigger] m[j] == '.')
    &&& exists|i: int| 0 <= i < m.len() && is_dec_digit(#[trigger] m[i])
}

/// `Digit+`.
pub open spec fn is_digit_run(d: Seq<char>) -> bool {
    d.len() > 0 && forall|i: int| 0 <= i < d.len() ==> is_dec_digit(#[trigger] d[i])
}

/// `Sign? Digit+`.
pub open spec fn is_exponent(x: Seq<char>) -> bool {
    is_digit_run(unsigned_part(x))
}

/// `Mantissa ('e' Exponent)?` on lowered text.
pub open spec fn is_decimal_number(t: Seq<char>) -> bool {
    ||| is_mantissa(t)
    ||| exists|k: int| 0 <= k < t.len() && #[trigger] t[k] == 'e' && is_mantissa(t.take(k)) && is_exponent(t.skip(k + 1))
}

/// The text without one leading sign.
pub open spec fn unsigned_part(s: Seq<char>) -> Seq<char> {
    if s.len() > 0 && (s[0] == '+' || s[0] == '-') { s.skip(1) } else { s }
}

/// The grammar std documents for `f64::from_str`, matched on the lowered
/// text: `Sign? ('inf' | 'infinity' | 'nan' | Number)`.
pub open spec fn is_float_text(s: Seq<char>) -> bool {
    let l = unsigned_part(s).map_values(|c: char| ascii_lower(c));
    l == "inf"@ || l == "infinity"@ || l == "nan"@ || is_decimal_number(l)
}

fn lower_char(c: char) -> (r: char)
    ensures
        r == ascii_lower(c),
{
    if 'A' <= c && c <= 'Z' {
        let v: u8 = (c as u32 + 32) as u8;
        v as char
    } else {
        c
    }
}

fn same_chars(v: &Vec<char>, lo: usize, t: &str) -> (r: bool)
    requires
        lo <= v.len(),
    ensures
        r == (v@.skip(lo as int) == t@),
{
    let w = chars_of(t);
    if v.len() - lo != w.len() {
        assert(v@.skip(lo as int).len() != t@.len());
        return false;
    }
    let mut i: usize = 0;
    while i < w.len()
        invariant
            w@ == t@,
            lo <= v.len(),
            v.len() - lo == w.len(),
            i <= w.len(),
            forall|k: int| 0 <= k < i ==> v@[lo + k] == w@[k],
        decreases w.len() - i,
    {
        if v[lo + i] != w[i] {
            assert(v@.skip(lo as int)[i as int] != t@[i as int]);
            return false;
        }
        i = i + 1;
    }
    assert(v@.skip(lo as int) =~= t@);
    true
}

fn mantissa_between(v: &Vec<char>, lo: usize, hi: usize) -> (r: bool)
    requires
        lo <= hi <= v.len(),
    ensures
        r == is_mantissa(v@.subrange(lo as int, hi as int)),
{
    let ghost m = v@.subrange(lo as int, hi as int);
    let mut seen_dot = false;
    let mut seen_digit = false;
    let mut i: usize = lo;
    while i < hi
        invariant
            lo <= i <= hi <= v.len(),
            m == v@.subrange(lo as int, hi as int),
            forall|k: int| 0 <= k < i - lo ==> is_dec_digit(#[trigger] m[k]) || m[k] == '.',
            forall|a: int, b: int| 0 <= a < b < i - lo ==> !(#[trigger] m[a] == '.' && #[trigger] m[b] == '.'),
            seen_dot <==> exists|k: int| 0 <= k < i - lo && #[trigger] m[k] == '.',
            seen_digit <==> exists|k: int| 0 <= k < i - lo && is_dec_digit(#[trigger] m[k]),
        decreases hi - i,
    {
        let c = v[i];
        assert(m[i - lo] == c);
        if '0' <= c && c <= '9' {
            seen_digit = true;
        } else if c == '.' {
            if seen_dot {
                proof {
                    let k = choose|k: int| 0 <= k < i - lo && #[trigger] m[k] == '.';
                    assert(m[k] == '.' && m[i - lo] == '.');
                }
                return false;
            }
            seen_dot = true;
        } else {
            assert(!(is_dec_digit(m[i - lo]) || m[i - lo] == '.'));
            return false;
        }
        i = i + 1;
    }
    seen_digit
}

fn exponent_from(v: &Vec<char>, lo: usize) -> (r: bool)
    requires
        lo <= v.len(),
    ensures
        r == is_exponent(v@.skip(lo as int)),
{
    let ghost x = v@.skip(lo as int);
    let start: usize = if lo < v.len() && (v[lo] == '+' || v[lo] == '-') { lo + 1 } else { lo };
    let ghost d = unsigned_part(x);
    assert(d =~= v@.skip(start as int));
    if start == v.len() {
        return false;
    }
    let mut i: usize = start;
    while i < v.len()
        invariant
            start <= i <= v.len(),
            d == v@.skip(start as int),
            x == v@.skip(lo as int),
            d == unsigned_part(x),
            forall|k: int| 0 <= k < i - start ==> is_dec_digit(#[trigger] d[k]),
        decreases v.len() - i,
    {
        if !('0' <= v[i] && v[i] <= '9') {
            assert(d[i - start] == v@[i as int]);
            assert(0 <= i - start < d.len());
            assert(!is_dec_digit(d[i - start]));
            assert(!is_exponent(x));
            return false;
        }
        i = i + 1;
    }
    true
}

fn first_e(l: &Vec<char>) -> (k: usize)
    ensures
        k <= l.len(),
        forall|j: int| 0 <= j < k ==> #[trigger] l@[j] != 'e',
        k < l.len() ==> l@[k as int] == 'e',
{
    let mut k: usize = 0;
    while k < l.len()
        invariant
            k <= l.len(),
            forall|j: int| 0 <= j < k ==> #[trigger] l@[j] != 'e',
        decreases l.len() - k,
    {
        if l[k] == 'e' {
            return k;
        }
        k = k + 1;
    }
    k
}

/// Whether std's `f64::from_str` accepts the text, by the grammar its
/// documentation gives.
pub fn float_syntax(s: &str) -> (r: bool)
    ensures
        r == is_float_text(s@),
{
    let cs = chars_of(s);
    let start: usize = if cs.len() > 0 && (cs[0] == '+' || cs[0] == '-') { 1 } else { 0 };
    let ghost body = unsigned_part(s@);
    assert(body =~= cs@.skip(start as int));
    let mut l: Vec<char> = Vec::new();
    let mut i: usize = start;
    while i < cs.len()
        invariant
            cs@ == s@,
            start <= i <= cs.len(),
            body == cs@.skip(start as int),
            l@ == cs@.subrange(start as int, i as int).map_values(|c: char| ascii_lower(c)),
        decreases cs.len() - i,
    {
        let c = lower_char(cs[i]);
        l.push(c);
        assert(cs@.subrange(start as int, i + 1) =~= cs@.subrange(start as int, i as int).push(cs@[i as int]));
        assert(l@ =~= cs@.subrange(start as int, i + 1).map_values(|c: char| ascii_lower(c)));
        i = i + 1;
    }
    assert(cs@.subrange(start as int, cs.len() as int) =~= body);
    let ghost t = body.map_values(|c: char| ascii_lower(c));
    assert(l@ =~= t);
    assert(l@.skip(0) =~= l@);
    if same_chars(&l, 0, "inf") || same_chars(&l, 0, "infinity") || same_chars(&l, 0, "nan") {
        return true;
    }
    let k = first_e(&l);
    if k == l.len() {
        assert(t.take(k as int) =~= t);
        assert(l@.subrange(0, k as int) =~= t);
        let r = mantissa_between(&l, 0, k);
        proof {
            if !r {
                assert forall|q: int| 0 <= q < t.len() && #[trigger] t[q] == 'e' implies
                    !(is_mantissa(t.take(q)) && is_exponent(t.skip(q + 1))) by {
                    assert(false);
                }
            }
        }
        return r;
    }
    assert(l@.subrange(0, k as int) =~= t.take(k as int));
    let m = mantissa_between(&l, 0, k);
    let x = exponent_from(&l, k + 1);
    proof {
        assert(t[k as int] == 'e');
        assert(!is_mantissa(t)) by {
            assert(!(is_dec_digit(t[k as int]) || t[k as int] == '.'));
        }
        if m && x {
            assert(t[k as int] == 'e' && is_mantissa(t.take(k as int)) && is_exponent(t.skip(k + 1)));
        } else {
            assert forall|q: int| 0 <= q < t.len() && #[trigger] t[q] == 'e' implies
                !(is_mantissa(t.take(q)) && is_exponent(t.skip(q + 1))) by {
                if q > k {
                    assert(t.take(q)[k as int] == 'e');
                    assert(!(is_dec_digit(t.take(q)[k as int]) || t.take(q)[k as int] == '.'));
                } else if q < k {
                    assert(t[q] != 'e');
                }
            }
        }
    }
    m && x
}

} // verus!
