//! Reading a finished job's reduced output back as per-customer totals:
//! length-delimited reduce files (or their text form), with the source
//! transaction files as a last resort, then one sorted entry per customer.

use vstd::prelude::*;
use crate::evaluator::{EvaluateRequest, Customer, Transaction, TransactionData};
use crate::codec::{KeyValue, be_u64_at, decode_pairs, decode_output_file, read_u64_be};
use crate::order::{insert_stable, sort_stable, lemma_insert_stable_at};
use crate::text::{
    chars_of, chars_eq, line_bounds, lines, trim, trim_bounds, trimmed, split, split_bounds, splitn,
    splitn_bounds, pieces, bounds_ok, parse_u64, parse_u64_chars, parse_i64, parse_i64_chars,
    utf8_lossy, utf8_lossy_string,
};

verus! {

/// Key, sum and count of each reduced pair whose value holds a full record
/// (32 bytes or more), the key read as lossy UTF-8.
pub open spec fn reduce_triples(ps: Seq<(Seq<u8>, Seq<u8>)>) -> Seq<(Seq<char>, u64, u64)>
    decreases ps.len(),
{
    if ps.len() == 0 {
        Seq::empty()
    } else {
        let r = reduce_triples(ps.drop_last());
        let (k, v) = ps.last();
        if v.len() >= 32 {
            r.push((utf8_lossy(k), be_u64_at(v, 0) as u64, be_u64_at(v, 8) as u64))
        } else {
            r
        }
    }
}

pub open spec fn triple_view(t: (String, u64, u64)) -> (Seq<char>, u64, u64) {
    (t.0@, t.1, t.2)
}

/// Decodes a reduce output file into (customer, sum, count) triples.
pub fn decode_reduce_bytes(buf: &[u8]) -> (r: Vec<(String, u64, u64)>)
    ensures
        r@.map_values(|t: (String, u64, u64)| triple_view(t)) == reduce_triples(decode_pairs(buf@)),
{
    let kvs = decode_output_file(buf);
    let ghost ps = kvs@.map_values(|kv: KeyValue| kv@);
    let mut out: Vec<(String, u64, u64)> = Vec::new();
    let mut i: usize = 0;
    while i < kvs.len()
        invariant
            i <= kvs@.len(),
            ps == kvs@.map_values(|kv: KeyValue| kv@),
            out@.map_values(|t: (String, u64, u64)| triple_view(t)) == reduce_triples(ps.take(i as int)),
        decreases kvs.len() - i,
    {
        let kv = &kvs[i];
        assert(ps.take(i + 1).drop_last() =~= ps.take(i as int));
        assert(ps.take(i + 1).last() == kv@);
        if kv.value.len() >= 32 {
            let key = utf8_lossy_string(kv.key.as_slice());
            let sum = read_u64_be(kv.value.as_slice(), 0);
            let count = read_u64_be(kv.value.as_slice(), 8);
            out.push((key, sum, count));
        }
        assert(out@.map_values(|t: (String, u64, u64)| triple_view(t)) =~= reduce_triples(ps.take(i + 1)));
        i = i + 1;
    }
    assert(ps.take(kvs@.len() as int) =~= ps);
    out
}

/// Id, reference id and amount of a transaction line, when `splitn(6, ',')`
/// gives six fields.
pub open spec fn coord_fields(line: Seq<char>) -> Option<(Seq<char>, Seq<char>, Seq<char>)> {
    let parts = splitn(line, 6, ',');
    if parts.len() < 6 {
        None
    } else {
        Some((trim(parts[0]), trim(parts[1]), trim(parts[3])))
    }
}

fn coord_fields_of(v: &Vec<char>, lo: usize, hi: usize) -> (r: Option<(String, String, String)>)
    requires
        lo <= hi <= v.len(),
    ensures
        match coord_fields(v@.subrange(lo as int, hi as int)) {
            Some(f) => r matches Some(t) && t.0@ == f.0 && t.1@ == f.1 && t.2@ == f.2,
            None => r is None,
        },
{
    let bs = splitn_bounds(v, lo, hi, 6, ',');
    assert(pieces(v@, bs@).len() == bs@.len());
    if bs.len() < 6 {
        return None;
    }
    assert(bounds_ok(bs@, lo, hi));
    assert(pieces(v@, bs@)[0] == v@.subrange(bs@[0].0 as int, bs@[0].1 as int));
    assert(pieces(v@, bs@)[1] == v@.subrange(bs@[1].0 as int, bs@[1].1 as int));
    assert(pieces(v@, bs@)[3] == v@.subrange(bs@[3].0 as int, bs@[3].1 as int));
    Some((trimmed(v, bs[0].0, bs[0].1), trimmed(v, bs[1].0, bs[1].1), trimmed(v, bs[3].0, bs[3].1)))
}

/// Id, reference id and amount of a transaction line.
pub fn parse_transaction_line_for_coord(line: &str) -> (r: Option<(String, String, String)>)
    ensures
        match coord_fields(line@) {
            Some(f) => r matches Some(t) && t.0@ == f.0 && t.1@ == f.1 && t.2@ == f.2,
            None => r is None,
        },
{
    let v = chars_of(line);
    assert(v@.subrange(0, v@.len() as int) =~= line@);
    coord_fields_of(&v, 0, v.len())
}

// ---------------------------------------------------------------------------
// per-customer totals
// ---------------------------------------------------------------------------

/// Totals as plain values: customer, sum, count (unbounded).
pub type Totals = Seq<(Seq<char>, int, int)>;

/// Where customer `k` stands in `acc`, or -1.
pub open spec fn find_key(acc: Totals, k: Seq<char>) -> int
    decreases acc.len(),
{
    if acc.len() == 0 {
        -1
    } else if acc.last().0 == k {
        acc.len() - 1
    } else {
        find_key(acc.drop_last(), k)
    }
}

/// `acc` with `s` and `c` added to customer `k` (a new entry at the end for
/// a customer not seen yet).
pub open spec fn add_entry(acc: Totals, k: Seq<char>, s: int, c: int) -> Totals {
    let i = find_key(acc, k);
    if i >= 0 {
        acc.update(i, (k, acc[i].1 + s, acc[i].2 + c))
    } else {
        acc.push((k, s, c))
    }
}

/// `acc` with each (customer, sum, count) in turn added.
pub open spec fn add_all(acc: Totals, items: Seq<(Seq<char>, int, int)>) -> Totals
    decreases items.len(),
{
    if items.len() == 0 {
        acc
    } else {
        let t = items.last();
        add_entry(add_all(acc, items.drop_last()), t.0, t.1, t.2)
    }
}

/// Every total fits a `u64`.
pub open spec fn totals_fit(acc: Totals) -> bool {
    forall|i: int| 0 <= i < acc.len() ==> 0 <= (#[trigger] acc[i]).1 <= u64::MAX && 0 <= acc[i].2 <= u64::MAX
}

pub proof fn lemma_find_key(acc: Totals, k: Seq<char>)
    ensures
        -1 <= find_key(acc, k) < acc.len(),
        find_key(acc, k) >= 0 ==> acc[find_key(acc, k)].0 == k,
        find_key(acc, k) < 0 ==> forall|i: int| 0 <= i < acc.len() ==> (#[trigger] acc[i]).0 != k,
    decreases acc.len(),
{
    if acc.len() > 0 && acc.last().0 != k {
        lemma_find_key(acc.drop_last(), k);
        assert forall|i: int| 0 <= i < acc.drop_last().len() implies acc.drop_last()[i] == #[trigger] acc[i] by {}
    }
}

proof fn lemma_add_entry_keeps_overflow(acc: Totals, k: Seq<char>, s: int, c: int)
    requires
        !totals_fit(acc),
        nonneg(acc),
        s >= 0,
        c >= 0,
    ensures
        !totals_fit(add_entry(acc, k, s, c)),
{
    lemma_find_key(acc, k);
    let i = choose|i: int| 0 <= i < acc.len() && !(0 <= (#[trigger] acc[i]).1 <= u64::MAX && 0 <= acc[i].2 <= u64::MAX);
    assert(acc[i].1 >= 0 && acc[i].2 >= 0);
    let r = add_entry(acc, k, s, c);
    assert(!(0 <= r[i].1 <= u64::MAX && 0 <= r[i].2 <= u64::MAX));
}

/// Items with no negative sum or count.
pub open spec fn nonneg(items: Seq<(Seq<char>, int, int)>) -> bool {
    forall|i: int| 0 <= i < items.len() ==> (#[trigger] items[i]).1 >= 0 && items[i].2 >= 0
}

proof fn lemma_add_entry_nonneg(acc: Totals, k: Seq<char>, s: int, c: int)
    requires
        nonneg(acc),
        s >= 0,
        c >= 0,
    ensures
        nonneg(add_entry(acc, k, s, c)),
{
    lemma_find_key(acc, k);
}

proof fn lemma_add_all_nonneg(acc: Totals, items: Seq<(Seq<char>, int, int)>)
    requires
        nonneg(acc),
        nonneg(items),
    ensures
        nonneg(add_all(acc, items)),
    decreases items.len(),
{
    if items.len() > 0 {
        let d = items.drop_last();
        assert(nonneg(d)) by {
            assert forall|i: int| 0 <= i < d.len() implies (#[trigger] d[i]).1 >= 0 && d[i].2 >= 0 by {
                assert(d[i] == items[i]);
            }
        }
        lemma_add_all_nonneg(acc, d);
        let t = items.last();
        lemma_add_entry_nonneg(add_all(acc, d), t.0, t.1, t.2);
    }
}

/// Once a total is too large, adding more keeps it too large.
proof fn lemma_add_all_keeps_overflow(acc: Totals, items: Seq<(Seq<char>, int, int)>, k: int)
    requires
        0 <= k <= items.len(),
        nonneg(acc),
        nonneg(items),
        !totals_fit(add_all(acc, items.take(k))),
    ensures
        !totals_fit(add_all(acc, items)),
    decreases items.len() - k,
{
    if k < items.len() {
        assert(items.take(k + 1).drop_last() =~= items.take(k));
        let t = items[k];
        assert(items.take(k + 1).last() == t);
        assert(nonneg(items.take(k))) by {
            assert forall|i: int| 0 <= i < k implies (#[trigger] items.take(k)[i]).1 >= 0 && items.take(k)[i].2 >= 0 by {
                assert(items.take(k)[i] == items[i]);
            }
        }
        lemma_add_all_nonneg(acc, items.take(k));
        lemma_add_entry_keeps_overflow(add_all(acc, items.take(k)), t.0, t.1, t.2);
        lemma_add_all_keeps_overflow(acc, items, k + 1);
    } else {
        assert(items.take(k) =~= items);
    }
}

/// Running per-customer totals, customers in the order first seen.
pub struct CustomerTotals {
    entries: Vec<(String, u64, u64)>,
    keys: Vec<Vec<char>>,
}

impl CustomerTotals {
    pub closed spec fn view(&self) -> Totals {
        self.entries@.map_values(|e: (String, u64, u64)| (e.0@, e.1 as int, e.2 as int))
    }

    pub closed spec fn wf(&self) -> bool {
        &&& self.keys@.len() == self.entries@.len()
        &&& forall|i: int| 0 <= i < self.keys@.len() ==> (#[trigger] self.keys@[i])@ == self.entries@[i].0@
    }

    /// No customers yet.
    pub fn new() -> (r: Self)
        ensures
            r.wf(),
            r.view() == Seq::<(Seq<char>, int, int)>::empty(),
    {
        let r = CustomerTotals { entries: Vec::new(), keys: Vec::new() };
        assert(r.view() =~= Seq::<(Seq<char>, int, int)>::empty());
        r
    }

    proof fn lemma_nonneg(&self)
        ensures
            nonneg(self.view()),
    {
    }

    proof fn lemma_fits(&self)
        ensures
            totals_fit(self.view()),
    {
    }

    /// How many customers.
    pub fn len(&self) -> (n: usize)
        ensures
            n == self.view().len(),
    {
        self.entries.len()
    }

    /// Adds `s` and `c` to customer `k`; fails, leaving the totals as they
    /// were, when a total would not fit a `u64`.
    pub fn add(&mut self, k: String, s: u64, c: u64) -> (ok: bool)
        requires
            old(self).wf(),
        ensures
            final(self).wf(),
            ok ==> final(self).view() == add_entry(old(self).view(), k@, s as int, c as int),
            !ok ==> !totals_fit(add_entry(old(self).view(), k@, s as int, c as int)),
    {
        let ghost acc = self.view();
        let kc = chars_of(k.as_str());
        proof {
            lemma_find_key(acc, k@);
        }
        let mut i = self.entries.len();
        assert(acc.take(i as int) =~= acc);
        while i > 0 && !chars_eq(&self.keys[i - 1], &kc)
            invariant
                i <= self.entries@.len(),
                self.wf(),
                acc == self.view(),
                kc@ == k@,
                find_key(acc, k@) == find_key(acc.take(i as int), k@),
            decreases i,
        {
            assert(acc.take(i as int).drop_last() =~= acc.take(i - 1));
            assert(acc[i - 1].0 == self.entries@[i - 1].0@);
            i = i - 1;
        }
        if i == 0 {
            assert(acc.take(0) =~= Seq::<(Seq<char>, int, int)>::empty());
            self.entries.push((k, s, c));
            self.keys.push(kc);
            assert(self.view() =~= acc.push((k@, s as int, c as int)));
            return true;
        }
        let j = i - 1;
        assert(acc[j as int].0 == k@);
        assert(find_key(acc.take(i as int), k@) == j);
        let (s0, c0) = (self.entries[j].1, self.entries[j].2);
        match (s0.checked_add(s), c0.checked_add(c)) {
            (Some(s1), Some(c1)) => {
                let e = (k, s1, c1);
                self.entries.set(j, e);
                assert(self.view() =~= acc.update(j as int, (k@, acc[j as int].1 + s, acc[j as int].2 + c)));
                true
            },
            _ => {
                let ghost r = add_entry(acc, k@, s as int, c as int);
                assert(!(0 <= r[j as int].1 <= u64::MAX && 0 <= r[j as int].2 <= u64::MAX));
                false
            },
        }
    }
}


/// Items as plain values: customer, sum, count.
pub type Items = Seq<(Seq<char>, int, int)>;

pub open spec fn item_view(t: (String, u64, u64)) -> (Seq<char>, int, int) {
    (t.0@, t.1 as int, t.2 as int)
}

pub proof fn lemma_add_all_concat(acc: Totals, a: Items, b: Items)
    ensures
        add_all(acc, a + b) == add_all(add_all(acc, a), b),
    decreases b.len(),
{
    if b.len() == 0 {
        assert(a + b =~= a);
    } else {
        lemma_add_all_concat(acc, a, b.drop_last());
        assert((a + b).drop_last() =~= a + b.drop_last());
        assert((a + b).last() == b.last());
    }
}

/// Adds each item in turn; fails when a total would not fit a `u64`.
fn add_items(tot: &mut CustomerTotals, items: &Vec<(String, u64, u64)>) -> (ok: bool)
    requires
        old(tot).wf(),
    ensures
        final(tot).wf(),
        ({
            let all = add_all(old(tot).view(), items@.map_values(|t: (String, u64, u64)| item_view(t)));
            &&& ok ==> final(tot).view() == all
            &&& !ok ==> !totals_fit(all)
        }),
{
    let ghost start = tot.view();
    let ghost its = items@.map_values(|t: (String, u64, u64)| item_view(t));
    proof {
        tot.lemma_nonneg();
        assert(nonneg(its));
    }
    let mut i: usize = 0;
    while i < items.len()
        invariant
            i <= items@.len(),
            its == items@.map_values(|t: (String, u64, u64)| item_view(t)),
            nonneg(start),
            nonneg(its),
            start == old(tot).view(),
            tot.wf(),
            tot.view() == add_all(start, its.take(i as int)),
        decreases items.len() - i,
    {
        let t = &items[i];
        assert(its.take(i + 1).drop_last() =~= its.take(i as int));
        assert(its.take(i + 1).last() == item_view(*t));
        let k = t.0.clone();
        assert(k@ == t.0@);
        let ghost before = tot.view();
        let ok = tot.add(k, t.1, t.2);
        if !ok {
            proof {
                assert(add_all(start, its.take(i + 1)) == add_entry(before, t.0@, t.1 as int, t.2 as int));
                lemma_add_all_keeps_overflow(start, its, i + 1);
            }
            return false;
        }
        i = i + 1;
    }
    assert(its.take(items@.len() as int) =~= its);
    true
}

/// The items of the text form of a reduce file: per line that is not blank,
/// customer, sum and count from its first three comma-separated fields
/// (a field that is not a number counts as 0); lines with fewer fields are
/// left out.
pub open spec fn text_items(ls: Seq<Seq<char>>) -> Items
    decreases ls.len(),
{
    if ls.len() == 0 {
        Seq::empty()
    } else {
        let r = text_items(ls.drop_last());
        let t = trim(ls.last());
        let parts = split(t, ',');
        if t.len() == 0 || parts.len() < 3 {
            r
        } else {
            r.push((trim(parts[0]), or_zero(parse_u64(trim(parts[1]))), or_zero(parse_u64(trim(parts[2])))))
        }
    }
}

pub open spec fn or_zero(o: Option<u64>) -> int {
    match o {
        Some(x) => x as int,
        None => 0,
    }
}

/// The items of one reduce file: its records when it holds any, else its
/// text form.
pub open spec fn file_items(b: Seq<u8>) -> Items {
    let tr = reduce_triples(decode_pairs(b));
    if tr.len() > 0 {
        tr.map_values(|t: (Seq<char>, u64, u64)| (t.0, t.1 as int, t.2 as int))
    } else {
        text_items(lines(utf8_lossy(b)))
    }
}

/// The items of all reduce files, file after file.
pub open spec fn outputs_items(outs: Seq<Seq<u8>>) -> Items
    decreases outs.len(),
{
    if outs.len() == 0 {
        Seq::empty()
    } else {
        outputs_items(outs.drop_last()) + file_items(outs.last())
    }
}

fn parse_u64_or_zero(v: &Vec<char>, lo: usize, hi: usize) -> (r: u64)
    requires
        lo <= hi <= v.len(),
    ensures
        r as int == or_zero(parse_u64(v@.subrange(lo as int, hi as int))),
{
    match parse_u64_chars(v, lo, hi) {
        Some(x) => x,
        None => 0,
    }
}

/// The items of the text form of a reduce file.
fn text_file_items(b: &[u8]) -> (r: Vec<(String, u64, u64)>)
    ensures
        r@.map_values(|t: (String, u64, u64)| item_view(t)) == text_items(lines(utf8_lossy(b@))),
{
    let text = utf8_lossy_string(b);
    let v = chars_of(text.as_str());
    let lb = line_bounds(&v);
    let ghost ls = lines(v@);
    let mut out: Vec<(String, u64, u64)> = Vec::new();
    let mut i: usize = 0;
    while i < lb.len()
        invariant
            i <= lb@.len(),
            lb@.len() == ls.len(),
            ls == lines(v@),
            forall|k: int|
                0 <= k < lb@.len() ==> {
                    &&& (#[trigger] lb@[k]).0 <= lb@[k].1 <= v@.len()
                    &&& v@.subrange(lb@[k].0 as int, lb@[k].1 as int) == ls[k]
                },
            out@.map_values(|t: (String, u64, u64)| item_view(t)) == text_items(ls.take(i as int)),
        decreases lb.len() - i,
    {
        let (s, e) = lb[i];
        assert(ls.take(i + 1).drop_last() =~= ls.take(i as int));
        let (lo, hi) = trim_bounds(&v, s, e);
        if lo < hi {
            let bs = split_bounds(&v, lo, hi, ',');
            assert(pieces(v@, bs@).len() == bs@.len());
            if bs.len() >= 3 {
                assert(pieces(v@, bs@)[0] == v@.subrange(bs@[0].0 as int, bs@[0].1 as int));
                assert(pieces(v@, bs@)[1] == v@.subrange(bs@[1].0 as int, bs@[1].1 as int));
                assert(pieces(v@, bs@)[2] == v@.subrange(bs@[2].0 as int, bs@[2].1 as int));
                let cid = trimmed(&v, bs[0].0, bs[0].1);
                let (a1, b1) = trim_bounds(&v, bs[1].0, bs[1].1);
                let (a2, b2) = trim_bounds(&v, bs[2].0, bs[2].1);
                let sum = parse_u64_or_zero(&v, a1, b1);
                let count = parse_u64_or_zero(&v, a2, b2);
                out.push((cid, sum, count));
            }
        }
        assert(out@.map_values(|t: (String, u64, u64)| item_view(t)) =~= text_items(ls.take(i + 1)));
        i = i + 1;
    }
    assert(ls.take(lb@.len() as int) =~= ls);
    out
}

/// The items of one reduce file.
fn reduce_file_items(b: &[u8]) -> (r: Vec<(String, u64, u64)>)
    ensures
        r@.map_values(|t: (String, u64, u64)| item_view(t)) == file_items(b@),
{
    let tr = decode_reduce_bytes(b);
    if tr.len() > 0 {
        proof {
            let x = tr@.map_values(|t: (String, u64, u64)| item_view(t));
            let y = reduce_triples(decode_pairs(b@)).map_values(
                |t: (Seq<char>, u64, u64)| (t.0, t.1 as int, t.2 as int),
            );
            assert(tr@.map_values(|t: (String, u64, u64)| triple_view(t)).len() == tr@.len());
            assert forall|k: int| 0 <= k < tr@.len() implies x[k] == y[k] by {
                assert(tr@.map_values(|t: (String, u64, u64)| triple_view(t))[k] == triple_view(tr@[k]));
            }
            assert(x =~= y);
        }
        tr
    } else {
        proof {
            assert(tr@.map_values(|t: (String, u64, u64)| triple_view(t)).len() == 0);
        }
        text_file_items(b)
    }
}

proof fn lemma_outputs_items_prefix(outs: Seq<Seq<u8>>, k: int)
    requires
        0 <= k <= outs.len(),
    ensures
        outputs_items(outs.take(k)).len() <= outputs_items(outs).len(),
        outputs_items(outs.take(k)) == outputs_items(outs).take(outputs_items(outs.take(k)).len() as int),
    decreases outs.len() - k,
{
    if k < outs.len() {
        lemma_outputs_items_prefix(outs, k + 1);
        assert(outs.take(k + 1).drop_last() =~= outs.take(k));
        let a = outputs_items(outs.take(k));
        let b = outputs_items(outs.take(k + 1));
        assert(b == a + file_items(outs[k]));
        assert(outputs_items(outs).take(a.len() as int) =~= b.take(a.len() as int));
        assert(b.take(a.len() as int) =~= a);
    } else {
        assert(outs.take(k) =~= outs);
        let a = outputs_items(outs);
        assert(a.take(a.len() as int) =~= a);
    }
}

proof fn lemma_text_items_nonneg(ls: Seq<Seq<char>>)
    ensures
        nonneg(text_items(ls)),
    decreases ls.len(),
{
    if ls.len() > 0 {
        lemma_text_items_nonneg(ls.drop_last());
    }
}

proof fn lemma_outputs_items_nonneg(outs: Seq<Seq<u8>>)
    ensures
        nonneg(outputs_items(outs)),
    decreases outs.len(),
{
    if outs.len() > 0 {
        lemma_outputs_items_nonneg(outs.drop_last());
        let b = outs.last();
        lemma_text_items_nonneg(lines(utf8_lossy(b)));
        let a = outputs_items(outs.drop_last());
        let f = file_items(b);
        assert forall|i: int| 0 <= i < (a + f).len() implies (#[trigger] (a + f)[i]).1 >= 0 && (a + f)[i].2 >= 0 by {
            if i >= a.len() {
                assert((a + f)[i] == f[i - a.len()]);
            }
        }
    }
}

/// Per-customer totals of a job's reduce files (each file's bytes, files
/// that could not be read left out), customers in the order first seen.
/// Fails when a total does not fit a `u64`.
pub fn totals_from_reduce_outputs(outputs: &Vec<Vec<u8>>) -> (r: Option<CustomerTotals>)
    ensures
        ({
            let all = add_all(Seq::empty(), outputs_items(outputs@.map_values(|b: Vec<u8>| b@)));
            match r {
                Some(t) => t.wf() && totals_fit(all) && t.view() == all,
                None => !totals_fit(all),
            }
        }),
{
    let ghost outs = outputs@.map_values(|b: Vec<u8>| b@);
    let mut tot = CustomerTotals::new();
    let mut i: usize = 0;
    while i < outputs.len()
        invariant
            i <= outputs@.len(),
            outs == outputs@.map_values(|b: Vec<u8>| b@),
            tot.wf(),
            tot.view() == add_all(Seq::empty(), outputs_items(outs.take(i as int))),
        decreases outputs.len() - i,
    {
        assert(outs.take(i + 1).drop_last() =~= outs.take(i as int));
        assert(outs.take(i + 1).last() == outputs@[i as int]@);
        let items = reduce_file_items(outputs[i].as_slice());
        proof {
            lemma_add_all_concat(Seq::empty(), outputs_items(outs.take(i as int)), file_items(outputs@[i as int]@));
        }
        if !add_items(&mut tot, &items) {
            proof {
                lemma_outputs_items_prefix(outs, i + 1);
                lemma_outputs_items_nonneg(outs);
                let a = outputs_items(outs.take(i + 1));
                lemma_add_all_keeps_overflow(Seq::empty(), outputs_items(outs), a.len() as int);
            }
            return None;
        }
        i = i + 1;
    }
    assert(outs.take(outputs@.len() as int) =~= outs);
    proof {
        tot.lemma_nonneg();
        tot.lemma_fits();
    }
    Some(tot)
}


/// The items of a source transaction file: per line that is not blank and
/// has six fields, its customer (reference id, else id), its amount (0 when
/// not a number) and a count of one.
pub open spec fn content_items(ls: Seq<Seq<char>>) -> Items
    decreases ls.len(),
{
    if ls.len() == 0 {
        Seq::empty()
    } else {
        let r = content_items(ls.drop_last());
        let t = trim(ls.last());
        if t.len() == 0 {
            r
        } else {
            match coord_fields(t) {
                Some(f) => r.push((if f.1.len() > 0 { f.1 } else { f.0 }, or_zero(parse_u64(f.2)), 1)),
                None => r,
            }
        }
    }
}

/// The items of all source files, file after file.
pub open spec fn source_items(contents: Seq<Seq<char>>) -> Items
    decreases contents.len(),
{
    if contents.len() == 0 {
        Seq::empty()
    } else {
        source_items(contents.drop_last()) + content_items(lines(contents.last()))
    }
}

/// The items of one source file's text.
fn source_file_items(content: &str) -> (r: Vec<(String, u64, u64)>)
    ensures
        r@.map_values(|t: (String, u64, u64)| item_view(t)) == content_items(lines(content@)),
{
    let v = chars_of(content);
    let lb = line_bounds(&v);
    let ghost ls = lines(v@);
    let mut out: Vec<(String, u64, u64)> = Vec::new();
    let mut i: usize = 0;
    while i < lb.len()
        invariant
            i <= lb@.len(),
            lb@.len() == ls.len(),
            ls == lines(v@),
            forall|k: int|
                0 <= k < lb@.len() ==> {
                    &&& (#[trigger] lb@[k]).0 <= lb@[k].1 <= v@.len()
                    &&& v@.subrange(lb@[k].0 as int, lb@[k].1 as int) == ls[k]
                },
            out@.map_values(|t: (String, u64, u64)| item_view(t)) == content_items(ls.take(i as int)),
        decreases lb.len() - i,
    {
        let (s, e) = lb[i];
        assert(ls.take(i + 1).drop_last() =~= ls.take(i as int));
        let (lo, hi) = trim_bounds(&v, s, e);
        if lo < hi {
            match coord_fields_of(&v, lo, hi) {
                Some((id, ref_id, amount)) => {
                    let cid = if !ref_id.as_str().is_empty() {
                        ref_id
                    } else {
                        id
                    };
                    let ac = chars_of(amount.as_str());
                    assert(ac@.subrange(0, ac@.len() as int) =~= ac@);
                    let amt = parse_u64_or_zero(&ac, 0, ac.len());
                    out.push((cid, amt, 1));
                },
                None => {},
            }
        }
        assert(out@.map_values(|t: (String, u64, u64)| item_view(t)) =~= content_items(ls.take(i + 1)));
        i = i + 1;
    }
    assert(ls.take(lb@.len() as int) =~= ls);
    out
}

proof fn lemma_content_items_nonneg(ls: Seq<Seq<char>>)
    ensures
        nonneg(content_items(ls)),
    decreases ls.len(),
{
    if ls.len() > 0 {
        lemma_content_items_nonneg(ls.drop_last());
    }
}

proof fn lemma_source_items_facts(cs: Seq<Seq<char>>, k: int)
    requires
        0 <= k <= cs.len(),
    ensures
        nonneg(source_items(cs)),
        source_items(cs.take(k)).len() <= source_items(cs).len(),
        source_items(cs.take(k)) == source_items(cs).take(source_items(cs.take(k)).len() as int),
    decreases cs.len() - k,
{
    if k < cs.len() {
        lemma_source_items_facts(cs, k + 1);
        assert(cs.take(k + 1).drop_last() =~= cs.take(k));
        let a = source_items(cs.take(k));
        let b = source_items(cs.take(k + 1));
        assert(b == a + content_items(lines(cs[k])));
        assert(source_items(cs).take(a.len() as int) =~= b.take(a.len() as int));
        assert(b.take(a.len() as int) =~= a);
    } else {
        assert(cs.take(k) =~= cs);
        let a = source_items(cs);
        assert(a.take(a.len() as int) =~= a);
        lemma_source_items_nonneg(cs);
    }
}

proof fn lemma_source_items_nonneg(cs: Seq<Seq<char>>)
    ensures
        nonneg(source_items(cs)),
    decreases cs.len(),
{
    if cs.len() > 0 {
        lemma_source_items_nonneg(cs.drop_last());
        lemma_content_items_nonneg(lines(cs.last()));
        let a = source_items(cs.drop_last());
        let f = content_items(lines(cs.last()));
        assert forall|i: int| 0 <= i < (a + f).len() implies (#[trigger] (a + f)[i]).1 >= 0 && (a + f)[i].2 >= 0 by {
            if i >= a.len() {
                assert((a + f)[i] == f[i - a.len()]);
            }
        }
    }
}

/// Adds the transactions of the source files (each file's text, the empty
/// text for a file that could not be read). Fails when a total does not
/// fit a `u64`.
pub fn add_source_transactions(tot: &mut CustomerTotals, sources: &Vec<String>) -> (ok: bool)
    requires
        old(tot).wf(),
    ensures
        final(tot).wf(),
        ({
            let all = add_all(old(tot).view(), source_items(sources@.map_values(|c: String| c@)));
            &&& ok ==> final(tot).view() == all
            &&& !ok ==> !totals_fit(all)
        }),
{
    let ghost cs = sources@.map_values(|c: String| c@);
    let ghost start = tot.view();
    proof {
        tot.lemma_nonneg();
    }
    let mut i: usize = 0;
    while i < sources.len()
        invariant
            i <= sources@.len(),
            cs == sources@.map_values(|c: String| c@),
            start == old(tot).view(),
            nonneg(start),
            tot.wf(),
            tot.view() == add_all(start, source_items(cs.take(i as int))),
        decreases sources.len() - i,
    {
        assert(cs.take(i + 1).drop_last() =~= cs.take(i as int));
        assert(cs.take(i + 1).last() == sources@[i as int]@);
        let items = source_file_items(sources[i].as_str());
        proof {
            lemma_add_all_concat(start, source_items(cs.take(i as int)), content_items(lines(sources@[i as int]@)));
        }
        if !add_items(tot, &items) {
            proof {
                lemma_source_items_facts(cs, i + 1);
                let a = source_items(cs.take(i + 1));
                lemma_add_all_keeps_overflow(start, source_items(cs), a.len() as int);
            }
            return false;
        }
        i = i + 1;
    }
    assert(cs.take(sources@.len() as int) =~= cs);
    true
}

/// One customer's totals for the evaluator.
#[derive(Debug, Clone, Copy, PartialEq, Eq, Structural)]
pub struct CustomerTransaction {
    pub customer_id: i64,
    pub sum: i64,
    pub avg: i64,
    pub count: i64,
}

/// `"0"`.
pub open spec fn zero_text() -> Seq<char> {
    seq!['0']
}

/// The entry of one customer: its id read as an `i64` (0 when it is not
/// one), left out when that gives 0 from anything but `"0"`; the sum and
/// count as `i64` (`as` casts), the average the sum divided by the count
/// (0 without transactions).
pub open spec fn customer_entry(e: (Seq<char>, int, int)) -> Option<CustomerTransaction> {
    let id: i64 = match parse_i64(e.0) {
        Some(x) => x,
        None => 0,
    };
    if id == 0 && e.0 != zero_text() {
        None
    } else {
        Some(
            CustomerTransaction {
                customer_id: id,
                sum: e.1 as i64,
                avg: if e.2 > 0 {
                    (e.1 / e.2) as i64
                } else {
                    0
                },
                count: e.2 as i64,
            },
        )
    }
}

pub open spec fn customer_entries(acc: Totals) -> Seq<CustomerTransaction>
    decreases acc.len(),
{
    if acc.len() == 0 {
        Seq::empty()
    } else {
        let r = customer_entries(acc.drop_last());
        match customer_entry(acc.last()) {
            Some(c) => r.push(c),
            None => r,
        }
    }
}

/// Ascending customer id.
pub open spec fn by_customer_id() -> spec_fn(CustomerTransaction, CustomerTransaction) -> bool {
    |a: CustomerTransaction, b: CustomerTransaction| a.customer_id < b.customer_id
}

/// The customers of some totals, sorted by id (ties keep their order).
pub open spec fn customers_of(acc: Totals) -> Seq<CustomerTransaction> {
    sort_stable(customer_entries(acc), by_customer_id())
}

/// The customers of the totals, sorted by id.
pub fn customers_from_totals(tot: &CustomerTotals) -> (r: Vec<CustomerTransaction>)
    requires
        tot.wf(),
    ensures
        r@ == customers_of(tot.view()),
{
    let ghost acc = tot.view();
    let ghost before = by_customer_id();
    let mut out: Vec<CustomerTransaction> = Vec::new();
    let mut i: usize = 0;
    let zero = vec!['0'];
    assert(zero@ =~= zero_text());
    while i < tot.entries.len()
        invariant
            i <= tot.entries@.len(),
            acc == tot.view(),
            zero@ == zero_text(),
            before == by_customer_id(),
            out@ == sort_stable(customer_entries(acc.take(i as int)), before),
        decreases tot.entries.len() - i,
    {
        let e = &tot.entries[i];
        assert(acc.take(i + 1).drop_last() =~= acc.take(i as int));
        assert(acc.take(i + 1).last() == (e.0@, e.1 as int, e.2 as int));
        let kc = chars_of(e.0.as_str());
        assert(kc@.subrange(0, kc@.len() as int) =~= kc@);
        let id: i64 = match parse_i64_chars(&kc, 0, kc.len()) {
            Some(x) => x,
            None => 0,
        };
        if !(id == 0 && !chars_eq(&kc, &zero)) {
            let c = CustomerTransaction {
                customer_id: id,
                sum: e.1 as i64,
                avg: if e.2 > 0 {
                    (e.1 / e.2) as i64
                } else {
                    0
                },
                count: e.2 as i64,
            };
            assert(customer_entry(acc.take(i + 1).last()) == Some(c));
            let ghost prev = out@;
            let mut j = out.len();
            while j > 0 && c.customer_id < out[j - 1].customer_id
                invariant
                    j <= out@.len(),
                    prev == out@,
                    before == by_customer_id(),
                    forall|k: int| j <= k < prev.len() ==> before(c, #[trigger] prev[k]),
                decreases j,
            {
                assert(before(c, prev[j - 1]));
                j = j - 1;
            }
            proof {
                lemma_insert_stable_at(prev, c, before, j as int);
                let ce = customer_entries(acc.take(i as int)).push(c);
                assert(ce.drop_last() =~= customer_entries(acc.take(i as int)));
            }
            out.insert(j, c);
            assert(out@ =~= prev.take(j as int).push(c) + prev.skip(j as int));
        } else {
            assert(customer_entry(acc.take(i + 1).last()) is None);
        }
        i = i + 1;
    }
    assert(acc.take(tot.entries@.len() as int) =~= acc);
    out
}

/// Why a job's output could not be read back.
#[derive(Debug, Clone, Copy, PartialEq, Eq, Structural)]
pub enum ReducedError {
    /// A customer's total does not fit a `u64`.
    Overflow,
}

/// The totals of a job: from its reduce files, or, when those name no
/// customer and the job has source files, from the source files.
pub open spec fn job_totals(outs: Seq<Seq<u8>>, sources: Seq<Seq<char>>) -> Totals {
    let a = add_all(Seq::empty(), outputs_items(outs));
    if a.len() == 0 && sources.len() > 0 {
        add_all(a, source_items(sources))
    } else {
        a
    }
}

/// A finished job's per-customer totals, sorted by customer id, from the
/// bytes of its reduce files and the texts of its source files.
pub fn read_reduced_for_job(outputs: &Vec<Vec<u8>>, sources: &Vec<String>) -> (r: Result<
    Vec<CustomerTransaction>,
    ReducedError,
>)
    ensures
        ({
            let t = job_totals(outputs@.map_values(|b: Vec<u8>| b@), sources@.map_values(|c: String| c@));
            match r {
                Ok(v) => totals_fit(t) && v@ == customers_of(t),
                Err(e) => !totals_fit(t) && e == ReducedError::Overflow,
            }
        }),
{
    let mut tot = match totals_from_reduce_outputs(outputs) {
        Some(t) => t,
        None => return Err(ReducedError::Overflow),
    };
    if tot.len() == 0 && sources.len() > 0 {
        if !add_source_transactions(&mut tot, sources) {
            return Err(ReducedError::Overflow);
        }
    }
    proof {
        tot.lemma_fits();
    }
    Ok(customers_from_totals(&tot))
}


/// What the coordinator does once a job is done: mark the stored job and
/// its files completed (when the job came from a stored ingestion), and
/// send one evaluation per customer (when the job names an evaluator).
pub struct CompletionPlan {
    pub mark_completed: bool,
    pub evaluations: Vec<EvaluateRequest>,
}

/// The evaluation of one customer's totals for a job.
pub open spec fn evaluation_of(evaluator_id: u64, job_id: u64, c: CustomerTransaction) -> EvaluateRequest {
    EvaluateRequest {
        evaluator_id: evaluator_id as i64,
        customer: Some(Customer { customer_id: c.customer_id }),
        transaction: Some(
            Transaction { transaction_today: Some(TransactionData { sum: c.sum, avg: c.avg, count: c.count }) },
        ),
        job_id,
    }
}

/// Plans the work after a job is done: the stored job is marked completed
/// when `ingestion_job_id` is not 0; each customer of the job's output is
/// evaluated, in order, for the job's evaluator unless that is 0.
pub fn completion_plan(evaluator_id: u64, ingestion_job_id: u64, customers: &Vec<CustomerTransaction>) -> (r:
    CompletionPlan)
    ensures
        r.mark_completed == (ingestion_job_id != 0),
        r.evaluations@ == if evaluator_id == 0 {
            Seq::<EvaluateRequest>::empty()
        } else {
            customers@.map_values(|c: CustomerTransaction| evaluation_of(evaluator_id, ingestion_job_id, c))
        },
{
    let mut evaluations: Vec<EvaluateRequest> = Vec::new();
    if evaluator_id != 0 {
        let mut i: usize = 0;
        while i < customers.len()
            invariant
                i <= customers@.len(),
                evaluations@ == customers@.take(i as int).map_values(
                    |c: CustomerTransaction| evaluation_of(evaluator_id, ingestion_job_id, c),
                ),
            decreases customers.len() - i,
        {
            let c = customers[i];
            evaluations.push(
                EvaluateRequest {
                    evaluator_id: evaluator_id as i64,
                    customer: Some(Customer { customer_id: c.customer_id }),
                    transaction: Some(
                        Transaction {
                            transaction_today: Some(TransactionData { sum: c.sum, avg: c.avg, count: c.count }),
                        },
                    ),
                    job_id: ingestion_job_id,
                },
            );
            assert(customers@.take(i + 1) =~= customers@.take(i as int).push(c));
            i = i + 1;
        }
        assert(customers@.take(customers@.len() as int) =~= customers@);
    }
    CompletionPlan { mark_completed: ingestion_job_id != 0, evaluations }
}

// ---------------------------------------------------------------------------
// laws
// ---------------------------------------------------------------------------

/// The sum of the amounts of customer `k` in some items.
pub open spec fn key_sum(items: Seq<(Seq<char>, int, int)>, k: Seq<char>) -> int
    decreases items.len(),
{
    if items.len() == 0 {
        0
    } else {
        key_sum(items.drop_last(), k) + if items.last().0 == k {
            items.last().1
        } else {
            0
        }
    }
}

/// The sum of the counts of customer `k` in some items.
pub open spec fn key_count(items: Seq<(Seq<char>, int, int)>, k: Seq<char>) -> int
    decreases items.len(),
{
    if items.len() == 0 {
        0
    } else {
        key_count(items.drop_last(), k) + if items.last().0 == k {
            items.last().2
        } else {
            0
        }
    }
}

/// Whether some item is of customer `k`.
pub open spec fn has_key(items: Seq<(Seq<char>, int, int)>, k: Seq<char>) -> bool {
    exists|i: int| 0 <= i < items.len() && (#[trigger] items[i]).0 == k
}

/// No customer stands twice.
pub open spec fn keys_distinct(acc: Totals) -> bool {
    forall|i: int, j: int| 0 <= i < j < acc.len() ==> (#[trigger] acc[i]).0 != (#[trigger] acc[j]).0
}

proof fn lemma_absent_key_sums(items: Seq<(Seq<char>, int, int)>, k: Seq<char>)
    requires
        !has_key(items, k),
    ensures
        key_sum(items, k) == 0,
        key_count(items, k) == 0,
    decreases items.len(),
{
    if items.len() > 0 {
        let d = items.drop_last();
        assert(!has_key(d, k)) by {
            if has_key(d, k) {
                let i = choose|i: int| 0 <= i < d.len() && (#[trigger] d[i]).0 == k;
                assert(items[i] == d[i]);
            }
        }
        assert(items[items.len() - 1] == items.last());
        lemma_absent_key_sums(d, k);
    }
}

/// The totals of some items are the per-customer sums: one entry per
/// customer that occurs, no customer twice, and each entry's sum and count
/// are those of all the customer's items.
pub proof fn law_totals_are_per_customer_sums(items: Seq<(Seq<char>, int, int)>)
    ensures
        keys_distinct(add_all(Seq::empty(), items)),
        forall|k: Seq<char>| has_key(items, k) <==> find_key(add_all(Seq::empty(), items), k) >= 0,
        forall|i: int|
            0 <= i < add_all(Seq::empty(), items).len() ==> {
                let e = #[trigger] add_all(Seq::empty(), items)[i];
                e.1 == key_sum(items, e.0) && e.2 == key_count(items, e.0)
            },
    decreases items.len(),
{
    let t1 = add_all(Seq::empty(), items);
    if items.len() == 0 {
        assert forall|k: Seq<char>| has_key(items, k) <==> find_key(t1, k) >= 0 by {
            lemma_find_key(t1, k);
        }
    } else {
        let d = items.drop_last();
        let (k0, s0, c0) = items.last();
        law_totals_are_per_customer_sums(d);
        let t = add_all(Seq::empty(), d);
        assert(t1 == add_entry(t, k0, s0, c0));
        lemma_find_key(t, k0);
        let i0 = find_key(t, k0);
        assert(items[items.len() - 1] == items.last());
        assert forall|i: int| 0 <= i < d.len() implies #[trigger] d[i] == items[i] by {}
        assert forall|k: Seq<char>| has_key(items, k) <==> (has_key(d, k) || k == k0) by {
            if has_key(items, k) && k != k0 {
                let i = choose|i: int| 0 <= i < items.len() && (#[trigger] items[i]).0 == k;
                assert(d[i] == items[i]);
            }
            if has_key(d, k) {
                let i = choose|i: int| 0 <= i < d.len() && (#[trigger] d[i]).0 == k;
                assert(d[i] == items[i]);
            }
            if k == k0 {
                assert(items[items.len() - 1].0 == k);
            }
        }
        if i0 >= 0 {
            assert(t1 == t.update(i0, (k0, t[i0].1 + s0, t[i0].2 + c0)));
            assert forall|i: int| 0 <= i < t1.len() implies #[trigger] t1[i].0 == t[i].0 by {}
            assert(keys_distinct(t1)) by {
                assert forall|i: int, j: int| 0 <= i < j < t1.len() implies (#[trigger] t1[i]).0 != (#[trigger] t1[j]).0 by {
                    assert(t1[i].0 == t[i].0 && t1[j].0 == t[j].0);
                }
            }
            assert forall|k: Seq<char>| has_key(items, k) <==> find_key(t1, k) >= 0 by {
                lemma_find_key(t1, k);
                lemma_find_key(t, k);
                if find_key(t1, k) >= 0 {
                    assert(t[find_key(t1, k)].0 == k);
                }
                if find_key(t, k) >= 0 {
                    assert(t1[find_key(t, k)].0 == k);
                }
            }
            assert forall|i: int| 0 <= i < t1.len() implies {
                let e = #[trigger] t1[i];
                e.1 == key_sum(items, e.0) && e.2 == key_count(items, e.0)
            } by {
                let e = t[i];
                assert(e == t[i]);
                if i != i0 {
                    assert(t1[i] == e);
                    assert(e.0 != k0);
                }
            }
        } else {
            assert(t1 == t.push((k0, s0, c0)));
            assert forall|i: int| 0 <= i < t.len() implies #[trigger] t1[i] == t[i] by {}
            assert(keys_distinct(t1)) by {
                assert forall|i: int, j: int| 0 <= i < j < t1.len() implies (#[trigger] t1[i]).0 != (#[trigger] t1[j]).0 by {
                    if j == t.len() {
                        assert(t1[i] == t[i]);
                    } else {
                        assert(t1[i] == t[i] && t1[j] == t[j]);
                    }
                }
            }
            assert(!has_key(d, k0));
            lemma_absent_key_sums(d, k0);
            assert forall|k: Seq<char>| has_key(items, k) <==> find_key(t1, k) >= 0 by {
                lemma_find_key(t1, k);
                lemma_find_key(t, k);
                if find_key(t1, k) >= 0 && find_key(t1, k) < t.len() {
                    assert(t[find_key(t1, k)].0 == k);
                }
                if find_key(t, k) >= 0 {
                    assert(t1[find_key(t, k)].0 == k);
                }
                if k == k0 {
                    assert(t1[t.len() as int].0 == k);
                }
            }
            assert forall|i: int| 0 <= i < t1.len() implies {
                let e = #[trigger] t1[i];
                e.1 == key_sum(items, e.0) && e.2 == key_count(items, e.0)
            } by {
                if i < t.len() {
                    assert(t1[i] == t[i]);
                    assert(t[i].0 != k0);
                }
            }
        }
    }
}

/// The customers read back come sorted by customer id and are exactly the
/// entries of the totals (customers whose id is not a number left out).
pub proof fn law_customers_sorted_by_id(acc: Totals)
    ensures
        forall|i: int, j: int|
            0 <= i < j < customers_of(acc).len() ==> (#[trigger] customers_of(acc)[i]).customer_id
                <= (#[trigger] customers_of(acc)[j]).customer_id,
        customers_of(acc).to_multiset() == customer_entries(acc).to_multiset(),
{
    let before = by_customer_id();
    crate::order::law_sort_stable_sorted_permutation(customer_entries(acc), before);
    let c = customers_of(acc);
    assert forall|i: int, j: int| 0 <= i < j < c.len() implies (#[trigger] c[i]).customer_id <= (#[trigger] c[j]).customer_id by {
        assert(!before(c[j], c[i]));
    }
}

} // verus!
