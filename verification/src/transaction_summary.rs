//! The transaction summary application: map each transaction line to a
//! customer and a 32-byte record (amount, count, debit flag, credit flag,
//! each a big-endian `u64`), reduce the records of a customer by adding
//! them, and read the reduced records back as rows sorted by customer.

use vstd::prelude::*;
use vstd::utf8::{decode_utf8, encode_utf8, valid_utf8};
use crate::codec::{KeyValue, u64_be_bytes, be_u64_at, push_u64_be, read_u64_be, lemma_be_u64_roundtrip};
use crate::order::{insert_stable, sort_stable, lemma_insert_stable_at, lex_lt, chars_lt};
use crate::text::{
    chars_of, line_bounds, lines, trim, trim_bounds, parse_u64, parse_u64_chars, utf8_string,
    to_lowercase, lowercase, str_is, utf8_bytes, chars_eq,
};
use crate::worker::{transaction_fields, parse_fields, ParsedTransaction};

verus! {

/// Why a summary step failed.
#[derive(Debug, Clone, Copy, PartialEq, Eq, Structural)]
pub enum SummaryError {
    /// The bytes are not well-formed UTF-8.
    InvalidUtf8,
    /// A total does not fit a `u64`.
    Overflow,
}

/// The 32-byte record: four big-endian `u64`s.
pub open spec fn record(sum: u64, count: u64, debit: u64, credit: u64) -> Seq<u8> {
    u64_be_bytes(sum) + u64_be_bytes(count) + u64_be_bytes(debit) + u64_be_bytes(credit)
}

/// `b"unknown"`, the key of lines that are not transactions.
pub open spec fn unknown_key() -> Seq<u8> {
    seq![117u8, 110u8, 107u8, 110u8, 111u8, 119u8, 110u8]
}

pub open spec fn debit_word() -> Seq<char> {
    seq!['d', 'e', 'b', 'i', 't']
}

pub open spec fn credit_word() -> Seq<char> {
    seq!['c', 'r', 'e', 'd', 'i', 't']
}

/// The customer a transaction belongs to: its reference id, or its own id
/// when the reference is empty.
pub open spec fn customer_of(f: Seq<Seq<char>>) -> Seq<char> {
    if f[1].len() > 0 {
        f[1]
    } else {
        f[0]
    }
}

pub open spec fn flag(b: bool) -> u64 {
    if b {
        1
    } else {
        0
    }
}

/// What one non-empty, trimmed line maps to.
pub open spec fn summary_pair(line: Seq<char>) -> (Seq<u8>, Seq<u8>) {
    match transaction_fields(line) {
        Some(f) => (
            encode_utf8(customer_of(f)),
            record(
                match parse_u64(f[3]) {
                    Some(a) => a,
                    None => 0,
                },
                1,
                flag(lowercase(f[4]) == debit_word()),
                flag(lowercase(f[4]) == credit_word()),
            ),
        ),
        None => (unknown_key(), record(0, 1, 0, 0)),
    }
}

/// The pairs that `map` emits for the given lines: one per line that is not
/// blank, in order.
pub open spec fn summary_pairs(ls: Seq<Seq<char>>) -> Seq<(Seq<u8>, Seq<u8>)>
    decreases ls.len(),
{
    if ls.len() == 0 {
        Seq::empty()
    } else {
        let r = summary_pairs(ls.drop_last());
        let t = trim(ls.last());
        if t.len() == 0 {
            r
        } else {
            r.push(summary_pair(t))
        }
    }
}

/// The views of some key/value pairs.
pub open spec fn kv_views(kvs: Seq<KeyValue>) -> Seq<(Seq<u8>, Seq<u8>)> {
    kvs.map_values(|kv: KeyValue| kv@)
}

/// Appends the 32-byte record.
fn push_record(v: &mut Vec<u8>, sum: u64, count: u64, debit: u64, credit: u64)
    ensures
        final(v)@ == old(v)@ + record(sum, count, debit, credit),
{
    push_u64_be(v, sum);
    push_u64_be(v, count);
    push_u64_be(v, debit);
    push_u64_be(v, credit);
    assert(v@ =~= old(v)@ + record(sum, count, debit, credit));
}

/// The key and record of one trimmed, non-empty line `v[lo..hi]`.
fn map_line(v: &Vec<char>, lo: usize, hi: usize) -> (r: KeyValue)
    requires
        lo <= hi <= v.len(),
    ensures
        r@ == summary_pair(v@.subrange(lo as int, hi as int)),
{
    let mut value: Vec<u8> = Vec::new();
    match parse_fields(v, lo, hi) {
        Some(p) => {
            let customer = if !p.ref_id.as_str().is_empty() {
                p.ref_id
            } else {
                p.id
            };
            let key = utf8_bytes(customer.as_str());
            let ac = chars_of(p.amount.as_str());
            assert(ac@.subrange(0, ac@.len() as int) =~= ac@);
            let amount = match parse_u64_chars(&ac, 0, ac.len()) {
                Some(a) => a,
                None => 0,
            };
            let lower = to_lowercase(p.tx_type.as_str());
            let is_debit = str_is(lower.as_str(), &vec!['d', 'e', 'b', 'i', 't']);
            let is_credit = str_is(lower.as_str(), &vec!['c', 'r', 'e', 'd', 'i', 't']);
            proof {
                assert(seq!['d', 'e', 'b', 'i', 't'] =~= debit_word());
                assert(seq!['c', 'r', 'e', 'd', 'i', 't'] =~= credit_word());
            }
            push_record(&mut value, amount, 1, if is_debit { 1 } else { 0 }, if is_credit { 1 } else { 0 });
            proof {
                assert(value@ =~= Seq::<u8>::empty() + value@);
            }
            KeyValue::new(key, value)
        },
        None => {
            push_record(&mut value, 0, 1, 0, 0);
            let key = vec![117u8, 110u8, 107u8, 110u8, 111u8, 119u8, 110u8];
            assert(key@ =~= unknown_key());
            assert(value@ =~= record(0, 1, 0, 0));
            KeyValue::new(key, value)
        },
    }
}

/// Map: splits the file's text into lines and emits, for each line that is
/// not blank, the customer and a record of one transaction (its amount, or
/// 0 when the amount is not a number; whether its type is debit or credit,
/// in any letter case). A line that is not a transaction counts under
/// `unknown` with amount 0. Fails when the file is not UTF-8.
pub fn map(kv: KeyValue) -> (r: Result<Vec<KeyValue>, SummaryError>)
    ensures
        match r {
            Ok(out) => valid_utf8(kv.value@) && kv_views(out@) == summary_pairs(lines(decode_utf8(kv.value@))),
            Err(e) => !valid_utf8(kv.value@) && e == SummaryError::InvalidUtf8,
        },
{
    let text = match utf8_string(kv.value.as_slice()) {
        Some(s) => s,
        None => return Err(SummaryError::InvalidUtf8),
    };
    let v = chars_of(text.as_str());
    let lb = line_bounds(&v);
    let ghost ls = lines(v@);
    let mut out: Vec<KeyValue> = Vec::new();
    let mut i: usize = 0;
    while i < lb.len()
        invariant
            i <= lb@.len(),
            lb@.len() == ls.len(),
            ls == lines(v@),
            forall|k: int|
                0 <= k < lb@.len() ==> {
                    &&& (#[trigger] lb@[k]).0 <= lb@[k].1 <= v@.len()
                    &&& v@.subrange(lb@[k].0 as int, lb@[k].1 as int) == ls[k]
                },
            kv_views(out@) == summary_pairs(ls.take(i as int)),
        decreases lb.len() - i,
    {
        let (s, e) = lb[i];
        assert(ls.take(i + 1).drop_last() =~= ls.take(i as int));
        let (lo, hi) = trim_bounds(&v, s, e);
        if lo < hi {
            let kvp = map_line(&v, lo, hi);
            out.push(kvp);
        }
        assert(kv_views(out@) =~= summary_pairs(ls.take(i + 1)));
        i = i + 1;
    }
    assert(ls.take(lb@.len() as int) =~= ls);
    Ok(out)
}

/// The four totals of some records; a value shorter than 32 bytes counts
/// as one more transaction and adds nothing else.
pub open spec fn totals(vals: Seq<Seq<u8>>) -> (int, int, int, int)
    decreases vals.len(),
{
    if vals.len() == 0 {
        (0, 0, 0, 0)
    } else {
        let t = totals(vals.drop_last());
        let v = vals.last();
        if v.len() >= 32 {
            (t.0 + be_u64_at(v, 0), t.1 + be_u64_at(v, 8), t.2 + be_u64_at(v, 16), t.3 + be_u64_at(v, 24))
        } else {
            (t.0, t.1 + 1, t.2, t.3)
        }
    }
}

pub open spec fn totals_fit(t: (int, int, int, int)) -> bool {
    t.0 <= u64::MAX && t.1 <= u64::MAX && t.2 <= u64::MAX && t.3 <= u64::MAX
}

/// Totals only grow as records are added.
pub proof fn lemma_totals_grow(vals: Seq<Seq<u8>>, k: int)
    requires
        0 <= k <= vals.len(),
    ensures
        0 <= totals(vals.take(k)).0 <= totals(vals).0,
        0 <= totals(vals.take(k)).1 <= totals(vals).1,
        0 <= totals(vals.take(k)).2 <= totals(vals).2,
        0 <= totals(vals.take(k)).3 <= totals(vals).3,
    decreases vals.len() - k,
{
    if k < vals.len() {
        lemma_totals_grow(vals, k + 1);
        assert(vals.take(k + 1).drop_last() =~= vals.take(k));
    } else {
        assert(vals.take(k) =~= vals);
    }
    lemma_totals_nonneg(vals.take(k));
}

proof fn lemma_totals_nonneg(vals: Seq<Seq<u8>>)
    ensures
        totals(vals).0 >= 0,
        totals(vals).1 >= 0,
        totals(vals).2 >= 0,
        totals(vals).3 >= 0,
    decreases vals.len(),
{
    if vals.len() > 0 {
        lemma_totals_nonneg(vals.drop_last());
    }
}

/// Reduce: the records of one customer added up, as one record. Fails when
/// a total does not fit a `u64`.
pub fn reduce(key: &[u8], values: &Vec<Vec<u8>>) -> (r: Result<Vec<u8>, SummaryError>)
    ensures
        ({
            let t = totals(values@.map_values(|v: Vec<u8>| v@));
            match r {
                Ok(b) => totals_fit(t) && b@ == record(t.0 as u64, t.1 as u64, t.2 as u64, t.3 as u64),
                Err(e) => !totals_fit(t) && e == SummaryError::Overflow,
            }
        }),
{
    let ghost vals = values@.map_values(|v: Vec<u8>| v@);
    let mut sum: u64 = 0;
    let mut count: u64 = 0;
    let mut debit: u64 = 0;
    let mut credit: u64 = 0;
    let mut i: usize = 0;
    while i < values.len()
        invariant
            i <= values@.len(),
            vals == values@.map_values(|v: Vec<u8>| v@),
            totals(vals.take(i as int)) == (sum as int, count as int, debit as int, credit as int),
        decreases values.len() - i,
    {
        let v = &values[i];
        assert(vals[i as int] == v@);
        assert(vals.take(i + 1).drop_last() =~= vals.take(i as int));
        proof {
            lemma_totals_grow(vals, i + 1);
        }
        if v.len() >= 32 {
            let a = read_u64_be(v.as_slice(), 0);
            let b = read_u64_be(v.as_slice(), 8);
            let c = read_u64_be(v.as_slice(), 16);
            let d = read_u64_be(v.as_slice(), 24);
            match (sum.checked_add(a), count.checked_add(b), debit.checked_add(c), credit.checked_add(d)) {
                (Some(s2), Some(c2), Some(d2), Some(k2)) => {
                    sum = s2;
                    count = c2;
                    debit = d2;
                    credit = k2;
                },
                _ => {
                    return Err(SummaryError::Overflow);
                },
            }
        } else {
            match count.checked_add(1) {
                Some(c2) => {
                    count = c2;
                },
                None => {
                    return Err(SummaryError::Overflow);
                },
            }
        }
        i = i + 1;
    }
    assert(vals.take(values@.len() as int) =~= vals);
    let mut out: Vec<u8> = Vec::new();
    push_record(&mut out, sum, count, debit, credit);
    assert(out@ =~= record(sum, count, debit, credit));
    Ok(out)
}

/// One customer's reduced totals.
#[derive(Debug, Clone, PartialEq, Eq)]
pub struct SummaryRow {
    pub customer_id: String,
    pub sum: u64,
    pub count: u64,
    pub debit: u64,
    pub credit: u64,
}

/// A row as plain values: customer, sum, count, debit, credit.
pub type RowView = (Seq<char>, u64, u64, u64, u64);


impl View for SummaryRow {
    type V = RowView;

    open spec fn view(&self) -> RowView {
        (self.customer_id@, self.sum, self.count, self.debit, self.credit)
    }
}

/// Rows in order of customer, then of sum.
pub open spec fn row_before(a: RowView, b: RowView) -> bool {
    lex_lt(a.0, b.0) || (a.0 == b.0 && a.1 < b.1)
}

/// The order of `row_before` as a value.
pub open spec fn row_order() -> spec_fn(RowView, RowView) -> bool {
    |a: RowView, b: RowView| row_before(a, b)
}

/// The rows of some reduced pairs: `None` when a key is not UTF-8; pairs
/// whose value is shorter than 32 bytes are left out.
pub open spec fn rows_of(kvs: Seq<(Seq<u8>, Seq<u8>)>) -> Option<Seq<RowView>>
    decreases kvs.len(),
{
    if kvs.len() == 0 {
        Some(Seq::empty())
    } else {
        match rows_of(kvs.drop_last()) {
            None => None,
            Some(rows) => {
                let (k, v) = kvs.last();
                if !valid_utf8(k) {
                    None
                } else if v.len() < 32 {
                    Some(rows)
                } else {
                    Some(
                        rows.push(
                            (
                                decode_utf8(k),
                                be_u64_at(v, 0) as u64,
                                be_u64_at(v, 8) as u64,
                                be_u64_at(v, 16) as u64,
                                be_u64_at(v, 24) as u64,
                            ),
                        ),
                    )
                }
            },
        }
    }
}

proof fn lemma_rows_of_prefix_none(kvs: Seq<(Seq<u8>, Seq<u8>)>, k: int)
    requires
        0 <= k <= kvs.len(),
        rows_of(kvs.take(k)) is None,
    ensures
        rows_of(kvs) is None,
    decreases kvs.len() - k,
{
    if k < kvs.len() {
        assert(kvs.take(k + 1).drop_last() =~= kvs.take(k));
        lemma_rows_of_prefix_none(kvs, k + 1);
    } else {
        assert(kvs.take(k) =~= kvs);
    }
}

fn row_lt(a: &SummaryRow, ac: &Vec<char>, b: &SummaryRow, bc: &Vec<char>) -> (r: bool)
    requires
        ac@ == a.customer_id@,
        bc@ == b.customer_id@,
    ensures
        r == row_before(a@, b@),
{
    if chars_lt(ac, bc) {
        true
    } else if chars_eq(ac, bc) {
        a.sum < b.sum
    } else {
        false
    }
}

/// Process output: the reduced pairs as rows, sorted by customer and then
/// by sum (rows that tie keep their order). Fails when a key is not UTF-8.
pub fn process_output(kvs: &Vec<KeyValue>) -> (r: Result<Vec<SummaryRow>, SummaryError>)
    ensures
        match rows_of(kv_views(kvs@)) {
            Some(rows) => r matches Ok(out) && out@.map_values(|x: SummaryRow| x@) == sort_stable(
                rows,
                row_order(),
            ),
            None => r == Err::<Vec<SummaryRow>, SummaryError>(SummaryError::InvalidUtf8),
        },
{
    let ghost kv = kv_views(kvs@);
    let ghost before = row_order();
    let mut out: Vec<SummaryRow> = Vec::new();
    let mut keys: Vec<Vec<char>> = Vec::new();
    let ghost mut rows: Seq<RowView> = Seq::empty();
    let mut i: usize = 0;
    while i < kvs.len()
        invariant
            i <= kvs@.len(),
            kv == kv_views(kvs@),
            before == row_order(),
            rows_of(kv.take(i as int)) == Some(rows),
            out@.map_values(|x: SummaryRow| x@) == sort_stable(rows, before),
            keys@.len() == out@.len(),
            forall|k: int| 0 <= k < out@.len() ==> (#[trigger] keys@[k])@ == out@[k].customer_id@,
        decreases kvs.len() - i,
    {
        let kvi = &kvs[i];
        assert(kv.take(i + 1).drop_last() =~= kv.take(i as int));
        assert(kv.take(i + 1).last() == kvi@);
        let name = match utf8_string(kvi.key.as_slice()) {
            Some(s) => s,
            None => {
                proof {
                    lemma_rows_of_prefix_none(kv, i + 1);
                }
                return Err(SummaryError::InvalidUtf8);
            },
        };
        if kvi.value.len() >= 32 {
            let row = SummaryRow {
                customer_id: name,
                sum: read_u64_be(kvi.value.as_slice(), 0),
                count: read_u64_be(kvi.value.as_slice(), 8),
                debit: read_u64_be(kvi.value.as_slice(), 16),
                credit: read_u64_be(kvi.value.as_slice(), 24),
            };
            let rc = chars_of(row.customer_id.as_str());
            let ghost prev = out@.map_values(|x: SummaryRow| x@);
            let mut j = out.len();
            while j > 0 && row_lt(&row, &rc, &out[j - 1], &keys[j - 1])
                invariant
                    j <= out@.len(),
                    keys@.len() == out@.len(),
                    prev == out@.map_values(|x: SummaryRow| x@),
                    rc@ == row.customer_id@,
                    forall|k: int| 0 <= k < out@.len() ==> (#[trigger] keys@[k])@ == out@[k].customer_id@,
                    forall|k: int| j <= k < prev.len() ==> before(row@, #[trigger] prev[k]),
                    before == row_order(),
                decreases j,
            {
                assert(prev[j - 1] == out@[j - 1]@);
                assert(before(row@, prev[j - 1]));
                j = j - 1;
            }
            let ghost rv = row@;
            proof {
                lemma_insert_stable_at(prev, rv, before, j as int);
            }
            let ghost prev_keys = keys@;
            let ghost prev_out = out@;
            out.insert(j, row);
            keys.insert(j, rc);
            proof {
                assert(rows.push(rv).drop_last() =~= rows);
                rows = rows.push(rv);
                assert(out@.map_values(|x: SummaryRow| x@) =~= prev.take(j as int).push(rv) + prev.skip(
                    j as int,
                ));
                assert forall|k: int| 0 <= k < out@.len() implies (#[trigger] keys@[k])@ == out@[k].customer_id@ by {
                    if k < j {
                        assert(keys@[k] == prev_keys[k]);
                        assert(out@[k] == prev_out[k]);
                    } else if k > j {
                        assert(keys@[k] == prev_keys[k - 1]);
                        assert(out@[k] == prev_out[k - 1]);
                    }
                }
            }
        }
        i = i + 1;
    }
    assert(kv.take(kvs@.len() as int) =~= kv);
    Ok(out)
}


/// Rows are ordered by customer, then by sum: a strict order in which rows
/// that are not ordered either way agree on both.
proof fn lemma_row_order_strict()
    ensures
        forall|a: RowView, b: RowView| #[trigger] row_order()(a, b) ==> !row_order()(b, a),
        forall|a: RowView, b: RowView, c: RowView|
            #![trigger row_order()(a, b), row_order()(b, c)]
            !row_order()(a, b) && !row_order()(b, c) ==> !row_order()(a, c),
{
    assert forall|a: RowView, b: RowView| #[trigger] row_order()(a, b) implies !row_order()(b, a) by {
        crate::order::lemma_lex_lt_asymmetric(a.0, b.0);
    }
    assert forall|a: RowView, b: RowView, c: RowView|
        #![trigger row_order()(a, b), row_order()(b, c)]
        !row_order()(a, b) && !row_order()(b, c) implies !row_order()(a, c) by {
        crate::order::lemma_lex_lt_asymmetric(a.0, b.0);
        crate::order::lemma_lex_lt_asymmetric(b.0, c.0);
        crate::order::lemma_lex_lt_asymmetric(a.0, c.0);
        crate::order::lemma_lex_lt_total(a.0, b.0);
        crate::order::lemma_lex_lt_total(b.0, c.0);
        crate::order::lemma_lex_lt_transitive(c.0, b.0, a.0);
        crate::order::lemma_lex_lt_transitive(a.0, c.0, b.0);
        crate::order::lemma_lex_lt_transitive(b.0, a.0, c.0);
    }
}

/// The rows of a job's output come sorted by customer (in the order of
/// their text), rows of one customer by sum, and they are exactly the rows
/// of the reduced pairs.
pub proof fn law_process_output_sorted(kvs: Seq<(Seq<u8>, Seq<u8>)>)
    requires
        rows_of(kvs) is Some,
    ensures
        crate::order::sorted_by(sort_stable(rows_of(kvs)->0, row_order()), row_order()),
        sort_stable(rows_of(kvs)->0, row_order()).to_multiset() == (rows_of(kvs)->0).to_multiset(),
{
    lemma_row_order_strict();
    crate::order::law_sort_stable_sorted_permutation(rows_of(kvs)->0, row_order());
}

/// A record reads back as the four numbers written into it: the sum at
/// byte 0, the count at 8, the debit and credit counts at 16 and 24.
pub proof fn law_record_roundtrip(sum: u64, count: u64, debit: u64, credit: u64)
    ensures
        record(sum, count, debit, credit).len() == 32,
        be_u64_at(record(sum, count, debit, credit), 0) == sum,
        be_u64_at(record(sum, count, debit, credit), 8) == count,
        be_u64_at(record(sum, count, debit, credit), 16) == debit,
        be_u64_at(record(sum, count, debit, credit), 24) == credit,
{
    let r = record(sum, count, debit, credit);
    lemma_be_u64_roundtrip(sum);
    lemma_be_u64_roundtrip(count);
    lemma_be_u64_roundtrip(debit);
    lemma_be_u64_roundtrip(credit);
    assert(r.subrange(0, 8) =~= u64_be_bytes(sum));
    assert(r.subrange(8, 16) =~= u64_be_bytes(count));
    assert(r.subrange(16, 24) =~= u64_be_bytes(debit));
    assert(r.subrange(24, 32) =~= u64_be_bytes(credit));
    assert(be_u64_at(r, 0) == be_u64_at(r.subrange(0, 8), 0));
    assert(be_u64_at(r, 8) == be_u64_at(r.subrange(8, 16), 0));
    assert(be_u64_at(r, 16) == be_u64_at(r.subrange(16, 24), 0));
    assert(be_u64_at(r, 24) == be_u64_at(r.subrange(24, 32), 0));
}


/// Totals added component by component.
pub open spec fn add_totals(a: (int, int, int, int), b: (int, int, int, int)) -> (int, int, int, int) {
    (a.0 + b.0, a.1 + b.1, a.2 + b.2, a.3 + b.3)
}

/// The record holding some totals.
pub open spec fn totals_record(t: (int, int, int, int)) -> Seq<u8> {
    record(t.0 as u64, t.1 as u64, t.2 as u64, t.3 as u64)
}

/// The totals of records one after another are the sums of their totals.
proof fn lemma_totals_concat(a: Seq<Seq<u8>>, b: Seq<Seq<u8>>)
    ensures
        totals(a + b) == add_totals(totals(a), totals(b)),
    decreases b.len(),
{
    if b.len() == 0 {
        assert(a + b =~= a);
    } else {
        lemma_totals_concat(a, b.drop_last());
        assert((a + b).drop_last() =~= a + b.drop_last());
        assert((a + b).last() == b.last());
    }
}

/// Law: reducing in parts and then reducing the parts' records gives what
/// reducing everything gives, and the parts may come in either order. The
/// totals of records one after another are the component sums of their
/// totals; a part's record carries its totals when they fit.
pub proof fn law_reduce_merges_partial_reductions(a: Seq<Seq<u8>>, b: Seq<Seq<u8>>)
    requires
        totals_fit(totals(a)),
        totals_fit(totals(b)),
    ensures
        totals(a + b) == add_totals(totals(a), totals(b)),
        totals(seq![totals_record(totals(a)), totals_record(totals(b))]) == totals(a + b),
        totals(a + b) == totals(b + a),
{
    lemma_totals_concat(a, b);
    lemma_totals_concat(b, a);
    lemma_totals_nonneg(a);
    lemma_totals_nonneg(b);
    let ta = totals(a);
    let tb = totals(b);
    let ra = totals_record(ta);
    let rb = totals_record(tb);
    law_record_roundtrip(ta.0 as u64, ta.1 as u64, ta.2 as u64, ta.3 as u64);
    law_record_roundtrip(tb.0 as u64, tb.1 as u64, tb.2 as u64, tb.3 as u64);
    let two = seq![ra, rb];
    assert(two.drop_last() =~= seq![ra]);
    assert(seq![ra].drop_last() =~= Seq::<Seq<u8>>::empty());
    assert(totals(Seq::<Seq<u8>>::empty()) == (0int, 0int, 0int, 0int));
    assert(seq![ra].last() == ra);
    assert(totals(seq![ra]) == (ta.0, ta.1, ta.2, ta.3));
    assert(two.last() == rb);
    assert(totals(two) == add_totals(ta, tb));
}

} // verus!
