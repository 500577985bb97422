//! Stable ordering of records by a lexicographic key, and removal of
//! consecutive duplicates: the sort-then-dedup step the fetchers apply.

use vstd::prelude::*;
use crate::text::chars_of;

verus! {

/// Lexicographic order on integer sequences; a proper prefix comes first.
pub open spec fn lex_lt(a: Seq<i64>, b: Seq<i64>) -> bool
    decreases a.len(),
{
    if a.len() == 0 {
        b.len() > 0
    } else if b.len() == 0 {
        false
    } else if a[0] < b[0] {
        true
    } else if a[0] > b[0] {
        false
    } else {
        lex_lt(a.drop_first(), b.drop_first())
    }
}

pub proof fn lemma_lex_irreflexive(a: Seq<i64>)
    ensures
        !lex_lt(a, a),
    decreases a.len(),
{
    if a.len() > 0 {
        lemma_lex_irreflexive(a.drop_first());
    }
}

pub proof fn lemma_lex_transitive(a: Seq<i64>, b: Seq<i64>, c: Seq<i64>)
    requires
        lex_lt(a, b),
        lex_lt(b, c),
    ensures
        lex_lt(a, c),
    decreases a.len(),
{
    if a.len() > 0 && b.len() > 0 && c.len() > 0 {
        if a[0] == b[0] && b[0] == c[0] {
            lemma_lex_transitive(a.drop_first(), b.drop_first(), c.drop_first());
        }
    }
}

pub proof fn lemma_lex_total(a: Seq<i64>, b: Seq<i64>)
    ensures
        a == b || lex_lt(a, b) || lex_lt(b, a),
    decreases a.len(),
{
    if a.len() > 0 && b.len() > 0 && a[0] == b[0] {
        lemma_lex_total(a.drop_first(), b.drop_first());
        if a.drop_first() == b.drop_first() {
            assert(a =~= seq![a[0]] + a.drop_first());
            assert(b =~= seq![b[0]] + b.drop_first());
        }
    } else if a.len() == 0 && b.len() == 0 {
        assert(a =~= b);
    }
}

pub proof fn lemma_lex_asymmetric(a: Seq<i64>, b: Seq<i64>)
    requires
        lex_lt(a, b),
    ensures
        !lex_lt(b, a),
{
    if lex_lt(b, a) {
        lemma_lex_transitive(a, b, a);
        lemma_lex_irreflexive(a);
    }
}

/// Record `i` comes before record `j`: smaller key, or equal key and earlier position.
pub open spec fn comes_before(keys: Seq<Seq<i64>>, i: int, j: int) -> bool {
    lex_lt(keys[i], keys[j]) || (keys[i] == keys[j] && i < j)
}

/// `ord` lists every record position once, ordered by key, equal keys kept in
/// their original order: the result of a stable sort.
pub open spec fn is_stable_order(keys: Seq<Seq<i64>>, ord: Seq<usize>) -> bool {
    &&& ord.len() == keys.len()
    &&& forall|i: int| 0 <= i < ord.len() ==> (#[trigger] ord[i]) < keys.len()
    &&& forall|i: int, j: int|
        0 <= i < j < ord.len() ==> comes_before(keys, #[trigger] ord[i] as int, #[trigger] ord[j] as int)
}

/// A record never comes before itself, and of two records at most one
/// comes before the other.
pub proof fn lemma_comes_before_strict(keys: Seq<Seq<i64>>, p: int, q: int)
    ensures
        !comes_before(keys, p, p),
        !(comes_before(keys, p, q) && comes_before(keys, q, p)),
{
    lemma_lex_irreflexive(keys[p]);
    if lex_lt(keys[p], keys[q]) {
        lemma_lex_asymmetric(keys[p], keys[q]);
        if keys[q] == keys[p] {
            lemma_lex_irreflexive(keys[p]);
        }
    }
    if lex_lt(keys[q], keys[p]) {
        lemma_lex_asymmetric(keys[q], keys[p]);
        if keys[q] == keys[p] {
            lemma_lex_irreflexive(keys[p]);
        }
    }
}

/// A stable order lists each record position once.
pub proof fn lemma_stable_order_distinct(keys: Seq<Seq<i64>>, ord: Seq<usize>)
    requires
        is_stable_order(keys, ord),
    ensures
        forall|i: int, j: int| 0 <= i < ord.len() && 0 <= j < ord.len() && i != j ==> #[trigger] ord[i] != #[trigger] ord[j],
{
    assert forall|i: int, j: int| 0 <= i < ord.len() && 0 <= j < ord.len() && i != j implies #[trigger] ord[i] != #[trigger] ord[j] by {
        lemma_comes_before_strict(keys, ord[i] as int, ord[j] as int);
        if i < j {
            assert(comes_before(keys, ord[i] as int, ord[j] as int));
        } else {
            assert(comes_before(keys, ord[j] as int, ord[i] as int));
        }
    }
}

/// Position `p` occurs in `ord`.
pub open spec fn listed(ord: Seq<usize>, p: int) -> bool {
    exists|i: int| 0 <= i < ord.len() && #[trigger] ord[i] == p
}

/// A stable order lists every record position.
pub proof fn lemma_stable_order_complete(keys: Seq<Seq<i64>>, ord: Seq<usize>)
    requires
        is_stable_order(keys, ord),
    ensures
        forall|p: int| 0 <= p < keys.len() ==> #[trigger] listed(ord, p),
{
    lemma_stable_order_distinct(keys, ord);
    let s = ord.map_values(|x: usize| x as int);
    assert(s.no_duplicates()) by {
        assert forall|i: int, j: int| 0 <= i < s.len() && 0 <= j < s.len() && i != j implies s[i] != s[j] by {
            assert(ord[i] != ord[j]);
        }
    }
    s.unique_seq_to_set();
    let range = vstd::set_lib::set_int_range(0, keys.len() as int);
    vstd::set_lib::lemma_int_range(0, keys.len() as int);
    assert(s.to_set().subset_of(range)) by {
        assert forall|x: int| s.to_set().contains(x) implies range.contains(x) by {
            let i = choose|i: int| 0 <= i < s.len() && s[i] == x;
            assert(ord[i] < keys.len());
        }
    }
    vstd::set_lib::lemma_len_subset(s.to_set(), range);
    vstd::set_lib::lemma_subset_equality(s.to_set(), range);
    assert forall|p: int| 0 <= p < keys.len() implies #[trigger] listed(ord, p) by {
        assert(range.contains(p));
        assert(s.to_set().contains(p));
        let i = choose|i: int| 0 <= i < s.len() && s[i] == p;
        assert(ord[i] == p);
    }
}

proof fn lemma_stable_orders_agree_below(keys: Seq<Seq<i64>>, o1: Seq<usize>, o2: Seq<usize>, n: int)
    requires
        is_stable_order(keys, o1),
        is_stable_order(keys, o2),
        0 <= n <= o1.len(),
    ensures
        forall|k: int| 0 <= k < n ==> #[trigger] o1[k] == o2[k],
    decreases n,
{
    if n > 0 {
        let i = n - 1;
        lemma_stable_orders_agree_below(keys, o1, o2, i);
        lemma_stable_order_distinct(keys, o1);
        lemma_stable_order_distinct(keys, o2);
        lemma_stable_order_complete(keys, o1);
        lemma_stable_order_complete(keys, o2);
        let a = o1[i];
        let b = o2[i];
        if a != b {
            assert(a < keys.len() && b < keys.len());
            assert(listed(o2, a as int));
            assert(listed(o1, b as int));
            let j = choose|j: int| 0 <= j < o2.len() && #[trigger] o2[j] == a as int;
            let j2 = choose|j: int| 0 <= j < o1.len() && #[trigger] o1[j] == b as int;
            if j < i {
                assert(o1[j] == o2[j]);
                assert(o1[j] == a);
            }
            if j2 < i {
                assert(o1[j2] == o2[j2]);
                assert(o2[j2] == b);
            }
            assert(j > i && j2 > i);
            assert(comes_before(keys, b as int, a as int));
            assert(comes_before(keys, a as int, b as int));
            lemma_comes_before_strict(keys, a as int, b as int);
        }
    }
}

/// A stable sort has exactly one outcome: two stable orders of the same keys
/// are the same sequence.
pub proof fn law_stable_order_unique(keys: Seq<Seq<i64>>, o1: Seq<usize>, o2: Seq<usize>)
    requires
        is_stable_order(keys, o1),
        is_stable_order(keys, o2),
    ensures
        o1 == o2,
{
    lemma_stable_orders_agree_below(keys, o1, o2, o1.len() as int);
    assert(o1 =~= o2);
}

/// The key sequences of a list of exec keys.
pub open spec fn key_views(keys: Seq<Vec<i64>>) -> Seq<Seq<i64>> {
    keys.map_values(|k: Vec<i64>| k@)
}

fn lt_from(a: &Vec<i64>, b: &Vec<i64>, i: usize) -> (r: bool)
    requires
        i <= a.len(),
        i <= b.len(),
    ensures
        r == lex_lt(a@.skip(i as int), b@.skip(i as int)),
    decreases a.len() - i,
{
    if i == a.len() {
        i < b.len()
    } else if i == b.len() {
        false
    } else if a[i] < b[i] {
        true
    } else if a[i] > b[i] {
        false
    } else {
        assert(a@.skip(i as int).drop_first() =~= a@.skip(i + 1));
        assert(b@.skip(i as int).drop_first() =~= b@.skip(i + 1));
        lt_from(a, b, i + 1)
    }
}

/// Whether key `a` orders strictly before key `b`.
pub fn key_lt(a: &Vec<i64>, b: &Vec<i64>) -> (r: bool)
    ensures
        r == lex_lt(a@, b@),
{
    assert(a@.skip(0) =~= a@);
    assert(b@.skip(0) =~= b@);
    lt_from(a, b, 0)
}

/// Positions of the records in stably sorted order of their keys.
pub fn stable_order(keys: &Vec<Vec<i64>>) -> (ord: Vec<usize>)
    ensures
        is_stable_order(key_views(keys@), ord@),
{
    let ghost kv = key_views(keys@);
    let n = keys.len();
    let mut ord: Vec<usize> = Vec::new();
    let mut i: usize = 0;
    while i < n
        invariant
            n == keys.len(),
            kv == key_views(keys@),
            kv.len() == n,
            i <= n,
            ord.len() == i,
            forall|a: int| 0 <= a < ord.len() ==> (#[trigger] ord@[a]) < i,
            forall|a: int, b: int|
                0 <= a < b < ord.len() ==> comes_before(kv, #[trigger] ord@[a] as int, #[trigger] ord@[b] as int),
        decreases n - i,
    {
        let mut p: usize = 0;
        while p < ord.len() && !key_lt(&keys[i], &keys[ord[p]])
            invariant
                n == keys.len(),
                kv == key_views(keys@),
                kv.len() == n,
                i < n,
                p <= ord.len(),
                forall|a: int| 0 <= a < ord.len() ==> (#[trigger] ord@[a]) < i,
                forall|a: int| 0 <= a < p ==> !lex_lt(kv[i as int], #[trigger] kv[ord@[a] as int]),
            decreases ord.len() - p,
        {
            p = p + 1;
        }
        let ghost old_ord = ord@;
        proof {
            // Everything placed before `p` comes before record `i`.
            assert forall|a: int| 0 <= a < p implies comes_before(kv, #[trigger] old_ord[a] as int, i as int) by {
                lemma_lex_total(kv[i as int], kv[old_ord[a] as int]);
            }
            // Record `i` comes before everything from `p` on.
            assert forall|a: int| p <= a < old_ord.len() implies comes_before(kv, i as int, #[trigger] old_ord[a] as int) by {
                if a > p {
                    assert(comes_before(kv, old_ord[p as int] as int, old_ord[a] as int));
                    if lex_lt(kv[old_ord[p as int] as int], kv[old_ord[a] as int]) {
                        lemma_lex_transitive(kv[i as int], kv[old_ord[p as int] as int], kv[old_ord[a] as int]);
                    }
                }
            }
        }
        ord.insert(p, i);
        proof {
            assert forall|a: int, b: int| 0 <= a < b < ord.len() implies comes_before(kv, #[trigger] ord@[a] as int, #[trigger] ord@[b] as int) by {
                if a < p && b < p {
                    assert(ord@[a] == old_ord[a] && ord@[b] == old_ord[b]);
                } else if a < p && b == p {
                    assert(ord@[a] == old_ord[a] && ord@[b] == i);
                } else if a < p && b > p {
                    assert(ord@[a] == old_ord[a] && ord@[b] == old_ord[b - 1]);
                } else if a == p {
                    assert(ord@[a] == i && ord@[b] == old_ord[b - 1]);
                } else {
                    assert(ord@[a] == old_ord[a - 1] && ord@[b] == old_ord[b - 1]);
                }
            }
        }
        i = i + 1;
    }
    ord
}

/// Keeps the first of each run of consecutive records (in `ord`) whose bucket
/// keys are equal.
pub open spec fn first_of_runs(ord: Seq<usize>, buckets: Seq<Seq<i64>>) -> Seq<usize>
    decreases ord.len(),
{
    if ord.len() == 0 {
        Seq::empty()
    } else {
        let rest = first_of_runs(ord.drop_last(), buckets);
        if ord.len() == 1 || buckets[ord[ord.len() - 1] as int] != buckets[ord[ord.len() - 2] as int] {
            rest.push(ord[ord.len() - 1])
        } else {
            rest
        }
    }
}

/// Every kept position is one of the positions of `ord`.
pub proof fn lemma_first_of_runs_within(ord: Seq<usize>, buckets: Seq<Seq<i64>>)
    ensures
        forall|t: int| 0 <= t < first_of_runs(ord, buckets).len()
            ==> ord.contains(#[trigger] first_of_runs(ord, buckets)[t]),
    decreases ord.len(),
{
    if ord.len() > 0 {
        lemma_first_of_runs_within(ord.drop_last(), buckets);
        let rest = first_of_runs(ord.drop_last(), buckets);
        assert forall|t: int| 0 <= t < rest.len() implies ord.contains(#[trigger] rest[t]) by {
            let k = choose|k: int| 0 <= k < ord.drop_last().len() && ord.drop_last()[k] == rest[t];
            assert(ord[k] == rest[t]);
        }
        assert(ord[ord.len() - 1] == ord.last());
    }
}

/// The last kept record belongs to the same bucket as the last record.
pub proof fn lemma_first_of_runs_last(ord: Seq<usize>, buckets: Seq<Seq<i64>>)
    requires
        ord.len() > 0,
    ensures
        first_of_runs(ord, buckets).len() > 0,
        buckets[first_of_runs(ord, buckets).last() as int] == buckets[ord.last() as int],
    decreases ord.len(),
{
    if ord.len() > 1 {
        lemma_first_of_runs_last(ord.drop_last(), buckets);
    }
}

/// With single-number keys that never decrease along `ord`, the first
/// records of the runs of equal keys have strictly increasing keys, none
/// above the key of the last record.
pub proof fn lemma_runs_increase(ord: Seq<usize>, keys: Seq<Seq<i64>>)
    requires
        forall|i: int| 0 <= i < ord.len() ==> (#[trigger] ord[i]) < keys.len(),
        forall|k: int| 0 <= k < keys.len() ==> (#[trigger] keys[k]).len() == 1,
        forall|i: int, j: int| 0 <= i < j < ord.len() ==> #[trigger] keys[ord[i] as int][0] <= #[trigger] keys[ord[j] as int][0],
    ensures
        forall|a: int, b: int| 0 <= a < b < first_of_runs(ord, keys).len() ==>
            #[trigger] keys[first_of_runs(ord, keys)[a] as int][0] < #[trigger] keys[first_of_runs(ord, keys)[b] as int][0],
        ord.len() > 0 ==> forall|t: int| 0 <= t < first_of_runs(ord, keys).len() ==>
            #[trigger] keys[first_of_runs(ord, keys)[t] as int][0] <= keys[ord.last() as int][0],
    decreases ord.len(),
{
    if ord.len() > 0 {
        let prev = ord.drop_last();
        lemma_runs_increase(prev, keys);
        lemma_first_of_runs_within(prev, keys);
        let rest = first_of_runs(prev, keys);
        let r = first_of_runs(ord, keys);
        let n = ord.len();
        let last = ord[n - 1];
        assert(ord.last() == last);
        if n > 1 {
            assert(prev.last() == ord[n - 2]);
            assert(keys[ord[n - 2] as int][0] <= keys[last as int][0]);
        }
        let pushed = n == 1 || keys[last as int] != keys[ord[n - 2] as int];
        if pushed && n > 1 {
            assert(keys[last as int][0] != keys[ord[n - 2] as int][0]) by {
                if keys[last as int][0] == keys[ord[n - 2] as int][0] {
                    assert(keys[last as int] =~= keys[ord[n - 2] as int]);
                }
            }
        }
        if n == 1 {
            assert(rest.len() == 0);
        }
        assert forall|t: int| 0 <= t < r.len() implies #[trigger] keys[r[t] as int][0] <= keys[ord.last() as int][0] by {
            if t < rest.len() {
                assert(r[t] == rest[t]);
                assert(n > 1);
            }
        }
        assert forall|a: int, b: int| 0 <= a < b < r.len() implies
            #[trigger] keys[r[a] as int][0] < #[trigger] keys[r[b] as int][0] by {
            assert(r[a] == rest[a]);
            if b < rest.len() {
                assert(r[b] == rest[b]);
            } else {
                assert(r[b] == last);
                assert(n > 1);
                assert(keys[rest[a] as int][0] <= keys[prev.last() as int][0]);
            }
        }
    }
}

/// After removing repeats, no two neighbouring records share a bucket.
pub proof fn law_no_neighbouring_repeats(ord: Seq<usize>, buckets: Seq<Seq<i64>>)
    ensures
        forall|j: int| 0 <= j < first_of_runs(ord, buckets).len() - 1 ==>
            buckets[#[trigger] first_of_runs(ord, buckets)[j] as int] != buckets[first_of_runs(ord, buckets)[j + 1] as int],
    decreases ord.len(),
{
    if ord.len() > 0 {
        law_no_neighbouring_repeats(ord.drop_last(), buckets);
        let rest = first_of_runs(ord.drop_last(), buckets);
        let r = first_of_runs(ord, buckets);
        if ord.len() > 1 {
            lemma_first_of_runs_last(ord.drop_last(), buckets);
            assert(ord.drop_last().last() == ord[ord.len() - 2]);
        }
        assert forall|j: int| 0 <= j < r.len() - 1 implies
            buckets[#[trigger] r[j] as int] != buckets[r[j + 1] as int] by {
            if j + 1 < rest.len() {
                assert(r[j] == rest[j] && r[j + 1] == rest[j + 1]);
            }
        }
    }
}

/// Drops every record whose bucket equals that of the record just before it in `ord`.
pub fn dedup_runs(ord: &Vec<usize>, buckets: &Vec<Vec<i64>>) -> (r: Vec<usize>)
    requires
        forall|i: int| 0 <= i < ord.len() ==> (#[trigger] ord@[i]) < buckets.len(),
    ensures
        r@ == first_of_runs(ord@, key_views(buckets@)),
{
    let ghost bv = key_views(buckets@);
    let mut r: Vec<usize> = Vec::new();
    let mut i: usize = 0;
    while i < ord.len()
        invariant
            bv == key_views(buckets@),
            bv.len() == buckets.len(),
            i <= ord.len(),
            forall|k: int| 0 <= k < ord.len() ==> (#[trigger] ord@[k]) < buckets.len(),
            r@ == first_of_runs(ord@.take(i as int), bv),
        decreases ord.len() - i,
    {
        assert(ord@.take(i + 1).drop_last() =~= ord@.take(i as int));
        let keep = if i == 0 {
            true
        } else {
            let same = equal_keys(&buckets[ord[i]], &buckets[ord[i - 1]]);
            !same
        };
        if keep {
            r.push(ord[i]);
        }
        i = i + 1;
    }
    assert(ord@.take(ord.len() as int) =~= ord@);
    r
}

/// Whether two keys are identical.
pub fn equal_keys(a: &Vec<i64>, b: &Vec<i64>) -> (r: bool)
    ensures
        r == (a@ == b@),
{
    if a.len() != b.len() {
        return false;
    }
    let mut i: usize = 0;
    while i < a.len()
        invariant
            a.len() == b.len(),
            i <= a.len(),
            forall|k: int| 0 <= k < i ==> a@[k] == b@[k],
        decreases a.len() - i,
    {
        if a[i] != b[i] {
            return false;
        }
        i = i + 1;
    }
    assert(a@ =~= b@);
    true
}


/// Positions to keep after a stable sort by `keys` and removal of records
/// whose bucket repeats the one just before.
pub open spec fn sorted_dedup_spec(keys: Seq<Seq<i64>>, buckets: Seq<Seq<i64>>, r: Seq<usize>) -> bool {
    exists|ord: Seq<usize>| is_stable_order(keys, ord) && r == first_of_runs(ord, buckets)
}

/// Sorting then dropping repeats has exactly one outcome for given keys and
/// buckets.
pub proof fn law_sort_dedup_determined(keys: Seq<Seq<i64>>, buckets: Seq<Seq<i64>>, r1: Seq<usize>, r2: Seq<usize>)
    requires
        sorted_dedup_spec(keys, buckets, r1),
        sorted_dedup_spec(keys, buckets, r2),
    ensures
        r1 == r2,
{
    let o1 = choose|ord: Seq<usize>| is_stable_order(keys, ord) && r1 == first_of_runs(ord, buckets);
    let o2 = choose|ord: Seq<usize>| is_stable_order(keys, ord) && r2 == first_of_runs(ord, buckets);
    law_stable_order_unique(keys, o1, o2);
}

/// Every position kept by a sort and dedup is a record position.
pub proof fn lemma_kept_within(keys: Seq<Seq<i64>>, buckets: Seq<Seq<i64>>, kept: Seq<usize>)
    requires
        sorted_dedup_spec(keys, buckets, kept),
    ensures
        forall|t: int| 0 <= t < kept.len() ==> (#[trigger] kept[t]) < keys.len(),
{
    let ord = choose|ord: Seq<usize>| is_stable_order(keys, ord) && kept == first_of_runs(ord, buckets);
    lemma_first_of_runs_within(ord, buckets);
    assert forall|t: int| 0 <= t < kept.len() implies (#[trigger] kept[t]) < keys.len() by {
        assert(ord.contains(first_of_runs(ord, buckets)[t]));
        let i = choose|i: int| 0 <= i < ord.len() && ord[i] == kept[t];
        assert(ord[i] < keys.len());
    }
}

/// Stable sort by `keys`, then drop each record whose bucket equals the
/// previous record's.
pub fn sort_then_dedup(keys: &Vec<Vec<i64>>, buckets: &Vec<Vec<i64>>) -> (r: Vec<usize>)
    requires
        keys.len() == buckets.len(),
    ensures
        sorted_dedup_spec(key_views(keys@), key_views(buckets@), r@),
{
    let ord = stable_order(keys);
    let r = dedup_runs(&ord, buckets);
    assert(is_stable_order(key_views(keys@), ord@) && r@ == first_of_runs(ord@, key_views(buckets@)));
    r
}

/// A settlement price's timestamp and instrument name.
#[derive(Debug, Clone)]
pub struct SettlementKey {
    pub secs: i64,
    pub nanos: u32,
    pub instrument: String,
}

/// Code points of a name.
pub open spec fn name_codes(s: Seq<char>) -> Seq<i64> {
    s.map_values(|c: char| (c as u32) as i64)
}

/// Sort key: timestamp, then instrument name.
pub open spec fn settlement_order_key(k: SettlementKey) -> Seq<i64> {
    seq![k.secs, k.nanos as i64] + name_codes(k.instrument@)
}

/// UTC calendar day of a timestamp: whole days since the epoch, rounded down.
pub open spec fn utc_day(secs: int) -> int {
    if secs >= 0 { secs / 86400 } else { -((-secs + 86399) / 86400) }
}

/// Duplicate bucket: calendar day, then instrument name.
pub open spec fn settlement_day_key(k: SettlementKey) -> Seq<i64> {
    seq![utc_day(k.secs as int) as i64] + name_codes(k.instrument@)
}

fn name_codes_of(s: &String) -> (r: Vec<i64>)
    ensures
        r@ == name_codes(s@),
{
    let cs = chars_of(s.as_str());
    let mut r: Vec<i64> = Vec::new();
    let mut i: usize = 0;
    while i < cs.len()
        invariant
            cs@ == s@,
            i <= cs.len(),
            r@ == name_codes(cs@.take(i as int)),
        decreases cs.len() - i,
    {
        let c = cs[i];
        r.push(c as u32 as i64);
        assert(r@ =~= name_codes(cs@.take(i + 1)));
        i = i + 1;
    }
    assert(cs@.take(cs.len() as int) =~= cs@);
    r
}

/// UTC day number of an instant in epoch seconds.
pub fn utc_day_of(secs: i64) -> (r: i64)
    ensures
        r == utc_day(secs as int),
{
    if secs >= 0 {
        secs / 86400
    } else {
        -((-(secs as i128) + 86399) / 86400) as i64
    }
}

/// Which settlement records survive: sorted oldest first (ties by
/// instrument), keeping only the first of consecutive records with the same
/// UTC day and instrument.
pub fn settlement_keep(records: &Vec<SettlementKey>) -> (r: Vec<usize>)
    ensures
        sorted_dedup_spec(
            records@.map_values(|k: SettlementKey| settlement_order_key(k)),
            records@.map_values(|k: SettlementKey| settlement_day_key(k)),
            r@,
        ),
{
    let mut keys: Vec<Vec<i64>> = Vec::new();
    let mut buckets: Vec<Vec<i64>> = Vec::new();
    let mut i: usize = 0;
    while i < records.len()
        invariant
            i <= records.len(),
            keys.len() == i,
            buckets.len() == i,
            key_views(keys@) == records@.map_values(|k: SettlementKey| settlement_order_key(k)).take(i as int),
            key_views(buckets@) == records@.map_values(|k: SettlementKey| settlement_day_key(k)).take(i as int),
        decreases records.len() - i,
    {
        let rec = &records[i];
        let codes = name_codes_of(&rec.instrument);
        let mut k: Vec<i64> = Vec::new();
        k.push(rec.secs);
        k.push(rec.nanos as i64);
        let mut b: Vec<i64> = Vec::new();
        b.push(utc_day_of(rec.secs));
        let mut j: usize = 0;
        while j < codes.len()
            invariant
                j <= codes.len(),
                k@ == seq![rec.secs, rec.nanos as i64] + codes@.take(j as int),
                b@ == seq![utc_day(rec.secs as int) as i64] + codes@.take(j as int),
            decreases codes.len() - j,
        {
            k.push(codes[j]);
            b.push(codes[j]);
            assert(codes@.take(j + 1) =~= codes@.take(j as int).push(codes@[j as int]));
            j = j + 1;
        }
        assert(codes@.take(codes.len() as int) =~= codes@);
        assert(k@ =~= settlement_order_key(records@[i as int]));
        assert(b@ =~= settlement_day_key(records@[i as int]));
        let ghost old_keys = keys@;
        let ghost old_buckets = buckets@;
        keys.push(k);
        buckets.push(b);
        assert(key_views(keys@) =~= key_views(old_keys).push(settlement_order_key(records@[i as int])));
        assert(key_views(buckets@) =~= key_views(old_buckets).push(settlement_day_key(records@[i as int])));
        assert(records@.map_values(|k: SettlementKey| settlement_order_key(k)).take(i + 1)
            =~= records@.map_values(|k: SettlementKey| settlement_order_key(k)).take(i as int).push(
                settlement_order_key(records@[i as int])));
        assert(records@.map_values(|k: SettlementKey| settlement_day_key(k)).take(i + 1)
            =~= records@.map_values(|k: SettlementKey| settlement_day_key(k)).take(i as int).push(
                settlement_day_key(records@[i as int])));
        i = i + 1;
    }
    assert(records@.map_values(|k: SettlementKey| settlement_order_key(k)).take(records.len() as int)
        =~= records@.map_values(|k: SettlementKey| settlement_order_key(k)));
    assert(records@.map_values(|k: SettlementKey| settlement_day_key(k)).take(records.len() as int)
        =~= records@.map_values(|k: SettlementKey| settlement_day_key(k)));
    sort_then_dedup(&keys, &buckets)
}

/// Which hourly readings survive: sorted by hour (stable), keeping the first
/// reading of each hour.
pub fn hourly_keep(hours: &Vec<u32>) -> (r: Vec<usize>)
    ensures
        sorted_dedup_spec(
            hours@.map_values(|h: u32| seq![h as i64]),
            hours@.map_values(|h: u32| seq![h as i64]),
            r@,
        ),
{
    let mut keys: Vec<Vec<i64>> = Vec::new();
    let mut i: usize = 0;
    while i < hours.len()
        invariant
            i <= hours.len(),
            keys.len() == i,
            key_views(keys@) == hours@.map_values(|h: u32| seq![h as i64]).take(i as int),
        decreases hours.len() - i,
    {
        let mut k: Vec<i64> = Vec::new();
        k.push(hours[i] as i64);
        assert(k@ =~= seq![hours@[i as int] as i64]);
        let ghost old_keys = keys@;
        keys.push(k);
        assert(key_views(keys@) =~= key_views(old_keys).push(seq![hours@[i as int] as i64]));
        assert(hours@.map_values(|h: u32| seq![h as i64]).take(i + 1)
            =~= hours@.map_values(|h: u32| seq![h as i64]).take(i as int).push(seq![hours@[i as int] as i64]));
        i = i + 1;
    }
    assert(hours@.map_values(|h: u32| seq![h as i64]).take(hours.len() as int)
        =~= hours@.map_values(|h: u32| seq![h as i64]));
    sort_then_dedup(&keys, &keys)
}

} // verus!
