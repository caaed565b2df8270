//! The MapReduce worker: transaction lines, the map step's partitioning,
//! the reduce step's grouping, and the intermediate data a worker keeps.

use vstd::prelude::*;
use vstd::utf8::encode_utf8;
use std::collections::HashMap;
use std::collections::hash_map::DefaultHasher;
use std::hash::{Hash, Hasher};
use crate::codec::{
    KeyValue, LengthDelimitedWriter, frame, parse_frames, LengthDelimitedReader, pairs_bytes, pairs_fit, decode_pairs,
    lemma_pairs_bytes_push, law_pairs_roundtrip,
};
use crate::messages::{TaskReply, MapTaskAssignment};
use crate::order::{bytes_lt, bytes_less, bytes_eq, sort_stable, insert_stable, lemma_insert_stable_at, lemma_bytes_lt_facts};
use crate::text::{
    chars_of, trim_bounds, splitn_bounds, trimmed, trim, splitn, pieces, bounds_ok, line_bounds, lines,
    utf8_lossy, utf8_lossy_string, utf8_bytes_of, str_is,
};
use crate::transaction_summary::{SummaryError, totals, totals_fit, record, customer_of};

verus! {

/// The six trimmed fields of a transaction line (`id,ref_id,timestamp,
/// amount,type,description`, the description keeping any further commas),
/// when the trimmed line is not empty and has them.
pub open spec fn transaction_fields(line: Seq<char>) -> Option<Seq<Seq<char>>> {
    let t = trim(line);
    let parts = splitn(t, 6, ',');
    if t.len() == 0 || parts.len() < 6 {
        None
    } else {
        Some(Seq::new(6, |i: int| trim(parts[i])))
    }
}

/// A parsed transaction line.
#[derive(Debug, PartialEq, Eq)]
pub struct ParsedTransaction {
    pub id: String,
    pub ref_id: String,
    pub timestamp: String,
    pub amount: String,
    pub tx_type: String,
    pub description: String,
}

impl View for ParsedTransaction {
    type V = Seq<Seq<char>>;

    /// The fields in line order.
    open spec fn view(&self) -> Seq<Seq<char>> {
        seq![self.id@, self.ref_id@, self.timestamp@, self.amount@, self.tx_type@, self.description@]
    }
}

/// Parses the characters `v[lo..hi]` as a transaction line.
pub fn parse_fields(v: &Vec<char>, lo: usize, hi: usize) -> (r: Option<ParsedTransaction>)
    requires
        lo <= hi <= v.len(),
    ensures
        match transaction_fields(v@.subrange(lo as int, hi as int)) {
            Some(f) => r matches Some(p) && p@ == f,
            None => r is None,
        },
{
    let ghost line = v@.subrange(lo as int, hi as int);
    let (a, b) = trim_bounds(v, lo, hi);
    if a == b {
        return None;
    }
    let bs = splitn_bounds(v, a, b, 6, ',');
    proof {
        assert(pieces(v@, bs@).len() == bs@.len());
    }
    if bs.len() < 6 {
        return None;
    }
    let ghost parts = splitn(trim(line), 6, ',');
    proof {
        assert(bounds_ok(bs@, a, b));
        assert forall|k: int| 0 <= k < 6 implies v@.subrange(bs@[k].0 as int, bs@[k].1 as int) == parts[k] by {
            assert(pieces(v@, bs@)[k] == v@.subrange(bs@[k].0 as int, bs@[k].1 as int));
        }
    }
    let p = ParsedTransaction {
        id: trimmed(v, bs[0].0, bs[0].1),
        ref_id: trimmed(v, bs[1].0, bs[1].1),
        timestamp: trimmed(v, bs[2].0, bs[2].1),
        amount: trimmed(v, bs[3].0, bs[3].1),
        tx_type: trimmed(v, bs[4].0, bs[4].1),
        description: trimmed(v, bs[5].0, bs[5].1),
    };
    proof {
        let f = Seq::new(6, |i: int| trim(parts[i]));
        assert(p@ =~= f);
    }
    Some(p)
}

/// Parses a transaction line such as
/// `1,1,2026-09-14T03:21:15Z,15000050,Debit,Pembayaran merchant`.
pub fn parse_transaction_line(line: &str) -> (r: Option<ParsedTransaction>)
    ensures
        match transaction_fields(line@) {
            Some(f) => r matches Some(p) && p@ == f,
            None => r is None,
        },
{
    let v = chars_of(line);
    assert(v@.subrange(0, v@.len() as int) =~= line@);
    parse_fields(&v, 0, v.len())
}

/// Transaction-aware map without aggregation: for each line of the
/// (lossily decoded) file that is not blank, the customer (or `unknown`)
/// and the trimmed line itself.
pub open spec fn line_pair(t: Seq<char>) -> (Seq<u8>, Seq<u8>) {
    match transaction_fields(t) {
        Some(f) => (encode_utf8(customer_of(f)), encode_utf8(t)),
        None => (crate::transaction_summary::unknown_key(), encode_utf8(t)),
    }
}

pub open spec fn line_pairs(ls: Seq<Seq<char>>) -> Seq<(Seq<u8>, Seq<u8>)>
    decreases ls.len(),
{
    if ls.len() == 0 {
        Seq::empty()
    } else {
        let r = line_pairs(ls.drop_last());
        let t = trim(ls.last());
        if t.len() == 0 {
            r
        } else {
            r.push(line_pair(t))
        }
    }
}

/// Maps a file to (customer, line) pairs.
pub fn transaction_map_fn(kv: KeyValue) -> (r: Vec<KeyValue>)
    ensures
        r@.map_values(|x: KeyValue| x@) == line_pairs(lines(utf8_lossy(kv.value@))),
{
    let content = utf8_lossy_string(kv.value.as_slice());
    let v = chars_of(content.as_str());
    let lb = line_bounds(&v);
    let ghost ls = lines(v@);
    let mut out: Vec<KeyValue> = Vec::new();
    let mut i: usize = 0;
    while i < lb.len()
        invariant
            i <= lb@.len(),
            lb@.len() == ls.len(),
            ls == lines(v@),
            forall|k: int|
                0 <= k < lb@.len() ==> {
                    &&& (#[trigger] lb@[k]).0 <= lb@[k].1 <= v@.len()
                    &&& v@.subrange(lb@[k].0 as int, lb@[k].1 as int) == ls[k]
                },
            out@.map_values(|x: KeyValue| x@) == line_pairs(ls.take(i as int)),
        decreases lb.len() - i,
    {
        let (s, e) = lb[i];
        assert(ls.take(i + 1).drop_last() =~= ls.take(i as int));
        let (lo, hi) = trim_bounds(&v, s, e);
        if lo < hi {
            let value = utf8_bytes_of(&v, lo, hi);
            let key = match parse_fields(&v, lo, hi) {
                Some(p) => {
                    let c = if !p.ref_id.as_str().is_empty() {
                        p.ref_id
                    } else {
                        p.id
                    };
                    crate::text::utf8_bytes(c.as_str())
                },
                None => {
                    let k = vec![117u8, 110u8, 107u8, 110u8, 111u8, 119u8, 110u8];
                    assert(k@ =~= crate::transaction_summary::unknown_key());
                    k
                },
            };
            out.push(KeyValue::new(key, value));
        }
        assert(out@.map_values(|x: KeyValue| x@) =~= line_pairs(ls.take(i + 1)));
        i = i + 1;
    }
    assert(ls.take(lb@.len() as int) =~= ls);
    out
}

/// The values joined with commas.
pub open spec fn joined(values: Seq<Seq<u8>>) -> Seq<u8>
    decreases values.len(),
{
    if values.len() == 0 {
        Seq::empty()
    } else if values.len() == 1 {
        values[0]
    } else {
        joined(values.drop_last()) + seq![44u8] + values.last()
    }
}

/// The reduce used when no application is named: the values joined with
/// commas.
pub fn dummy_reduce(key: &[u8], values: &Vec<Vec<u8>>) -> (r: Vec<u8>)
    ensures
        r@ == joined(values@.map_values(|v: Vec<u8>| v@)),
{
    let ghost vs = values@.map_values(|v: Vec<u8>| v@);
    let mut out: Vec<u8> = Vec::new();
    let mut i: usize = 0;
    while i < values.len()
        invariant
            i <= values@.len(),
            vs == values@.map_values(|v: Vec<u8>| v@),
            out@ == joined(vs.take(i as int)),
        decreases values.len() - i,
    {
        assert(vs.take(i + 1).drop_last() =~= vs.take(i as int));
        assert(vs[i as int] == values@[i as int]@);
        if i > 0 {
            out.push(44u8);
        }
        let cur = &values[i];
        let mut j: usize = 0;
        let ghost before = out@;
        while j < cur.len()
            invariant
                j <= cur@.len(),
                out@ == before + cur@.take(j as int),
            decreases cur@.len() - j,
        {
            out.push(cur[j]);
            assert(out@ =~= before + cur@.take(j + 1));
            j = j + 1;
        }
        assert(values@[i as int]@.take(values@[i as int]@.len() as int) =~= values@[i as int]@);
        if i == 0 {
            assert(vs.take(1) =~= seq![vs[0]]);
            assert(out@ =~= joined(vs.take(1)));
        } else {
            assert(out@ =~= joined(vs.take(i + 1)));
        }
        i = i + 1;
    }
    assert(vs.take(values@.len() as int) =~= vs);
    out
}

/// The port a worker listens on: the first worker port plus its id.
pub fn get_port(worker_id: u32, initial_worker_port: u16) -> (r: u16)
    requires
        initial_worker_port + worker_id <= u16::MAX,
    ensures
        r == initial_worker_port + worker_id,
{
    (initial_worker_port as u32 + worker_id) as u16
}

/// A worker's address on the local host: `127.0.0.1:{port}`.
pub fn get_addr(worker_id: u32, initial_worker_port: u16) -> (r: String)
    requires
        initial_worker_port + worker_id <= u16::MAX,
    ensures
        r@ == "127.0.0.1:"@ + crate::text::decimal((initial_worker_port + worker_id) as nat),
{
    let mut r = "127.0.0.1:".to_owned();
    crate::text::push_decimal(&mut r, get_port(worker_id, initial_worker_port) as u64);
    r
}

/// The URL other workers reach a worker at: `http://127.0.0.1:{port}`.
pub fn worker_endpoint(worker_id: u32, initial_worker_port: u16) -> (r: String)
    requires
        initial_worker_port + worker_id <= u16::MAX,
    ensures
        r@ == "http://"@ + "127.0.0.1:"@ + crate::text::decimal((initial_worker_port + worker_id) as nat),
{
    let mut r = "http://".to_owned();
    let a = get_addr(worker_id, initial_worker_port);
    crate::text::push_str(&mut r, a.as_str());
    r
}

/// The number of lines that are not blank.
pub open spec fn nonblank_count(ls: Seq<Seq<char>>) -> nat
    decreases ls.len(),
{
    if ls.len() == 0 {
        0
    } else {
        nonblank_count(ls.drop_last()) + if trim(ls.last()).len() > 0 {
            1nat
        } else {
            0nat
        }
    }
}

/// How many transaction lines a file's text holds: its lines that are not
/// blank.
pub fn count_transaction_lines(content: &str) -> (n: usize)
    ensures
        n == nonblank_count(lines(content@)),
{
    let v = chars_of(content);
    let lb = line_bounds(&v);
    let ghost ls = lines(v@);
    let mut n: usize = 0;
    let mut i: usize = 0;
    while i < lb.len()
        invariant
            i <= lb@.len(),
            lb@.len() == ls.len(),
            ls == lines(v@),
            forall|k: int|
                0 <= k < lb@.len() ==> {
                    &&& (#[trigger] lb@[k]).0 <= lb@[k].1 <= v@.len()
                    &&& v@.subrange(lb@[k].0 as int, lb@[k].1 as int) == ls[k]
                },
            n == nonblank_count(ls.take(i as int)),
            n <= i,
        decreases lb.len() - i,
    {
        let (s, e) = lb[i];
        assert(ls.take(i + 1).drop_last() =~= ls.take(i as int));
        let (lo, hi) = trim_bounds(&v, s, e);
        if lo < hi {
            n = n + 1;
        }
        i = i + 1;
    }
    assert(ls.take(lb@.len() as int) =~= ls);
    n
}

/// A MapReduce application the workers know.
#[derive(Debug, Clone, Copy, PartialEq, Eq, Structural)]
pub enum App {
    /// Per-customer transaction summaries.
    BenefitEvaluator,
}

/// The application of a name: `benefit_evaluator` or `benefit-evaluator`.
pub fn get_app(name: &str) -> (r: Option<App>)
    ensures
        r is Some <==> (name@ == "benefit_evaluator"@ || name@ == "benefit-evaluator"@),
{
    proof {
        reveal_strlit("benefit_evaluator");
        reveal_strlit("benefit-evaluator");
    }
    let a = vec!['b', 'e', 'n', 'e', 'f', 'i', 't', '_', 'e', 'v', 'a', 'l', 'u', 'a', 't', 'o', 'r'];
    let b = vec!['b', 'e', 'n', 'e', 'f', 'i', 't', '-', 'e', 'v', 'a', 'l', 'u', 'a', 't', 'o', 'r'];
    assert(a@ =~= "benefit_evaluator"@);
    assert(b@ =~= "benefit-evaluator"@);
    if str_is(name, &a) || str_is(name, &b) {
        Some(App::BenefitEvaluator)
    } else {
        None
    }
}

/// What reducing one key's values gives: the application's reduce, or
/// the values joined with commas when there is none.
pub open spec fn app_reduce(app: Option<App>, values: Seq<Seq<u8>>) -> Result<Seq<u8>, SummaryError> {
    match app {
        Some(App::BenefitEvaluator) => {
            let t = totals(values);
            if totals_fit(t) {
                Ok(record(t.0 as u64, t.1 as u64, t.2 as u64, t.3 as u64))
            } else {
                Err(SummaryError::Overflow)
            }
        },
        None => Ok(joined(values)),
    }
}

/// Reduces one key's values with the application.
pub fn reduce_with(app: Option<App>, key: &[u8], values: &Vec<Vec<u8>>) -> (r: Result<Vec<u8>, SummaryError>)
    ensures
        match app_reduce(app, values@.map_values(|v: Vec<u8>| v@)) {
            Ok(b) => r matches Ok(x) && x@ == b,
            Err(e) => r == Err::<Vec<u8>, SummaryError>(e),
        },
{
    match app {
        Some(App::BenefitEvaluator) => crate::transaction_summary::reduce(key, values),
        None => Ok(dummy_reduce(key, values)),
    }
}

// ---------------------------------------------------------------------------
// map side
// ---------------------------------------------------------------------------

/// The hash of each pair's key, in order: `DefaultHasher` (`std`) over the
/// key's bytes, hashed as a byte slice (as `Bytes` hashes itself). Every
/// `DefaultHasher::new()` starts in the same state, so equal keys get equal
/// hashes. No value is claimed: the standard library does not fix the
/// algorithm across releases, and a slice's length goes into the hash as a
/// `usize`, whose width depends on the platform.
#[verifier::external_body]
fn key_hashes(pairs: &Vec<KeyValue>) -> (r: Vec<u64>)
    ensures
        r@.len() == pairs@.len(),
        forall|i: int, j: int|
            #![trigger r@[i], r@[j]]
            0 <= i < pairs@.len() && 0 <= j < pairs@.len() && pairs@[i].key@ == pairs@[j].key@ ==> r@[i] == r@[j],
{
    pairs.iter().map(|kv| {
        let mut h = DefaultHasher::new();
        kv.key.as_slice().hash(&mut h);
        h.finish()
    }).collect()
}

/// Hashes that agree wherever the keys do.
pub open spec fn hashes_follow_keys(ps: Seq<(Seq<u8>, Seq<u8>)>, hs: Seq<u64>) -> bool {
    &&& hs.len() == ps.len()
    &&& forall|i: int, j: int|
        #![trigger hs[i], hs[j]]
        0 <= i < ps.len() && 0 <= j < ps.len() && ps[i].0 == ps[j].0 ==> hs[i] == hs[j]
}

/// The partitions are those of some hashes of the keys that agree wherever
/// the keys do: every pair of one key is in the same partition.
pub open spec fn partitioned_by_key(ps: Seq<(Seq<u8>, Seq<u8>)>, parts: Seq<Vec<u8>>, n_reduce: u32) -> bool {
    exists|hs: Seq<u64>|
        #![trigger hashes_follow_keys(ps, hs)]
        hashes_follow_keys(ps, hs) && forall|i: int|
            0 <= i < n_reduce ==> (#[trigger] parts[i])@ == partition_bytes(ps, hs, n_reduce, i)
}

proof fn lemma_partitioned_by(ps: Seq<(Seq<u8>, Seq<u8>)>, hs: Seq<u64>, parts: Seq<Vec<u8>>, n_reduce: u32)
    requires
        hashes_follow_keys(ps, hs),
        forall|i: int| 0 <= i < n_reduce ==> (#[trigger] parts[i])@ == partition_bytes(ps, hs, n_reduce, i),
    ensures
        partitioned_by_key(ps, parts, n_reduce),
{
}

/// The reduce task a key with hash `h` goes to: the hash cut to its low 32
/// bits, modulo the number of reduce tasks.
pub open spec fn partition_of(h: u64, n_reduce: u32) -> int {
    ((h as u32) % n_reduce) as int
}

/// The bytes of partition `i`: the key and value frames of each pair that
/// goes there (by the hash of its key), in order.
pub open spec fn partition_bytes(pairs: Seq<(Seq<u8>, Seq<u8>)>, hashes: Seq<u64>, n_reduce: u32, i: int) -> Seq<u8>
    decreases pairs.len(),
{
    if pairs.len() == 0 {
        Seq::empty()
    } else {
        let r = partition_bytes(pairs.drop_last(), hashes.drop_last(), n_reduce, i);
        let (k, v) = pairs.last();
        if partition_of(hashes.last(), n_reduce) == i {
            r + frame(k) + frame(v)
        } else {
            r
        }
    }
}

/// Splits a map task's output into `n_reduce` partitions by the hashes of
/// the keys (`hashes[j]` that of pair `j`).
pub fn partition_map_output(pairs: &Vec<KeyValue>, hashes: &Vec<u64>, n_reduce: u32) -> (r: Vec<Vec<u8>>)
    requires
        n_reduce > 0,
        hashes@.len() == pairs@.len(),
    ensures
        r@.len() == n_reduce,
        forall|i: int|
            0 <= i < n_reduce ==> (#[trigger] r@[i])@ == partition_bytes(
                pairs@.map_values(|x: KeyValue| x@),
                hashes@,
                n_reduce,
                i,
            ),
{
    let ghost ps = pairs@.map_values(|x: KeyValue| x@);
    let mut parts: Vec<Vec<u8>> = Vec::new();
    let mut i: u32 = 0;
    while i < n_reduce
        invariant
            i <= n_reduce,
            parts@.len() == i,
            forall|k: int| 0 <= k < i ==> (#[trigger] parts@[k])@ == Seq::<u8>::empty(),
        decreases n_reduce - i,
    {
        parts.push(Vec::new());
        i = i + 1;
    }
    let mut j: usize = 0;
    while j < pairs.len()
        invariant
            j <= pairs@.len(),
            n_reduce > 0,
            hashes@.len() == pairs@.len(),
            ps == pairs@.map_values(|x: KeyValue| x@),
            parts@.len() == n_reduce,
            forall|k: int|
                0 <= k < n_reduce ==> (#[trigger] parts@[k])@ == partition_bytes(
                    ps.take(j as int),
                    hashes@.take(j as int),
                    n_reduce,
                    k,
                ),
        decreases pairs.len() - j,
    {
        let kv = &pairs[j];
        assert(ps.take(j + 1).drop_last() =~= ps.take(j as int));
        assert(ps.take(j + 1).last() == kv@);
        assert(hashes@.take(j + 1).drop_last() =~= hashes@.take(j as int));
        assert(hashes@.take(j + 1).last() == hashes@[j as int]);
        let h32 = hashes[j] as u32;
        let idx = (h32 % n_reduce) as usize;
        let ghost before = parts@;
        let buf = parts.remove(idx);
        let mut w = LengthDelimitedWriter { buf };
        w.send(kv.key.as_slice());
        w.send(kv.value.as_slice());
        let nb = w.finish();
        parts.insert(idx, nb);
        assert forall|k: int| 0 <= k < n_reduce implies (#[trigger] parts@[k])@ == partition_bytes(
            ps.take(j + 1),
            hashes@.take(j + 1),
            n_reduce,
            k,
        ) by {
            if k == idx as int {
                assert(parts@[k]@ =~= before[k]@ + frame(kv.key@) + frame(kv.value@));
            } else {
                assert(parts@[k] == before[k]);
            }
        }
        j = j + 1;
    }
    assert(ps.take(pairs@.len() as int) =~= ps);
    assert(hashes@.take(pairs@.len() as int) =~= hashes@);
    parts
}

// ---------------------------------------------------------------------------
// reduce side
// ---------------------------------------------------------------------------

/// Frames read as key, value, key, value, ...: `None` when the last key has
/// no value.
pub open spec fn frame_pairs(items: Seq<Seq<u8>>) -> Option<Seq<(Seq<u8>, Seq<u8>)>> {
    if items.len() % 2 == 1 {
        None
    } else {
        Some(Seq::new(items.len() / 2, |i: int| (items[2 * i], items[2 * i + 1])))
    }
}

/// The pairs of all map results, result after result.
pub open spec fn intermediate(results: Seq<Seq<u8>>) -> Option<Seq<(Seq<u8>, Seq<u8>)>>
    decreases results.len(),
{
    if results.len() == 0 {
        Some(Seq::empty())
    } else {
        match (intermediate(results.drop_last()), frame_pairs(parse_frames(results.last())->0)) {
            (Some(a), Some(b)) => Some(a + b),
            _ => None,
        }
    }
}

/// Why a reduce task failed.
#[derive(Debug, Clone, Copy, PartialEq, Eq, Structural)]
pub enum ReduceError {
    /// A map result ends with a key that has no value.
    KeyWithoutValue,
    /// The application's reduce failed.
    App(SummaryError),
}

/// Reads the (key, value) pairs of one map result.
fn read_pairs(result: &Vec<u8>, out: &mut Vec<KeyValue>) -> (ok: bool)
    requires
        parse_frames(result@) is Some,
    ensures
        match frame_pairs(parse_frames(result@)->0) {
            Some(ps) => ok && final(out)@.map_values(|x: KeyValue| x@) == old(out)@.map_values(
                |x: KeyValue| x@,
            ) + ps,
            None => !ok,
        },
{
    let ghost items = parse_frames(result@)->0;
    let ghost base = out@.map_values(|x: KeyValue| x@);
    let mut reader = LengthDelimitedReader::new(result.clone());
    let ghost mut done: int = 0;
    assert(items.subrange(0, items.len() as int) =~= items);
    assert(out@.map_values(|x: KeyValue| x@) =~= base + Seq::new(0, |i: int| (items[2 * i], items[2 * i + 1])));
    loop
        invariant
            reader.wf(),
            parse_frames(reader.remaining()) is Some,
            0 <= done <= items.len(),
            done % 2 == 0,
            items == parse_frames(result@)->0,
            base == old(out)@.map_values(|x: KeyValue| x@),
            parse_frames(reader.remaining())->0 == items.subrange(done, items.len() as int),
            out@.map_values(|x: KeyValue| x@) == base + Seq::new(
                (done / 2) as nat,
                |i: int| (items[2 * i], items[2 * i + 1]),
            ),
        decreases items.len() - done,
    {
        match reader.next() {
            None => {
                assert(done == items.len());
                return true;
            },
            Some(key) => {
                match reader.next() {
                    None => {
                        assert(done + 1 == items.len());
                        return false;
                    },
                    Some(value) => {
                        assert(key@ == items[done]);
                        assert(value@ == items[done + 1]);
                        let ghost before = out@.map_values(|x: KeyValue| x@);
                        out.push(KeyValue::new(key, value));
                        proof {
                            assert(out@.map_values(|x: KeyValue| x@) =~= before.push((key@, value@)));
                            assert(items.subrange(done + 2, items.len() as int) =~= items.subrange(
                                done,
                                items.len() as int,
                            ).drop_first().drop_first());
                            let d2 = (done + 2) / 2;
                            assert(d2 == done / 2 + 1);
                            assert(Seq::new(d2 as nat, |i: int| (items[2 * i], items[2 * i + 1])) =~= Seq::new(
                                (done / 2) as nat,
                                |i: int| (items[2 * i], items[2 * i + 1]),
                            ).push((items[done], items[done + 1])));
                            done = done + 2;
                        }
                    },
                }
            },
        }
    }
}

/// The pairs of all map results; `None` when a key has no value.
fn collect_intermediate(results: &Vec<Vec<u8>>) -> (r: Option<Vec<KeyValue>>)
    requires
        forall|i: int| 0 <= i < results@.len() ==> parse_frames(#[trigger] results@[i]@) is Some,
    ensures
        match intermediate(results@.map_values(|b: Vec<u8>| b@)) {
            Some(ps) => r matches Some(v) && v@.map_values(|x: KeyValue| x@) == ps,
            None => r is None,
        },
{
    let ghost rs = results@.map_values(|b: Vec<u8>| b@);
    let mut out: Vec<KeyValue> = Vec::new();
    let mut i: usize = 0;
    while i < results.len()
        invariant
            i <= results@.len(),
            rs == results@.map_values(|b: Vec<u8>| b@),
            forall|k: int| 0 <= k < results@.len() ==> parse_frames(#[trigger] results@[k]@) is Some,
            intermediate(rs.take(i as int)) == Some(out@.map_values(|x: KeyValue| x@)),
        decreases results.len() - i,
    {
        assert(rs.take(i + 1).drop_last() =~= rs.take(i as int));
        assert(rs.take(i + 1).last() == results@[i as int]@);
        if !read_pairs(&results[i], &mut out) {
            proof {
                lemma_intermediate_prefix_none(rs, i + 1);
            }
            return None;
        }
        i = i + 1;
    }
    assert(rs.take(results@.len() as int) =~= rs);
    Some(out)
}

proof fn lemma_intermediate_prefix_none(rs: Seq<Seq<u8>>, k: int)
    requires
        0 <= k <= rs.len(),
        intermediate(rs.take(k)) is None,
    ensures
        intermediate(rs) is None,
    decreases rs.len() - k,
{
    if k < rs.len() {
        assert(rs.take(k + 1).drop_last() =~= rs.take(k));
        lemma_intermediate_prefix_none(rs, k + 1);
    } else {
        assert(rs.take(k) =~= rs);
    }
}

/// Pairs in order of their keys.
pub open spec fn key_order() -> spec_fn((Seq<u8>, Seq<u8>), (Seq<u8>, Seq<u8>)) -> bool {
    |a: (Seq<u8>, Seq<u8>), b: (Seq<u8>, Seq<u8>)| bytes_lt(a.0, b.0)
}

/// Sorts pairs by key, pairs of equal keys keeping their order.
pub fn sort_by_key(v: &Vec<KeyValue>) -> (r: Vec<KeyValue>)
    ensures
        r@.map_values(|x: KeyValue| x@) == sort_stable(v@.map_values(|x: KeyValue| x@), key_order()),
{
    let ghost vs = v@.map_values(|x: KeyValue| x@);
    let ghost before_fn = key_order();
    let mut out: Vec<KeyValue> = Vec::new();
    let mut i: usize = 0;
    while i < v.len()
        invariant
            i <= v@.len(),
            vs == v@.map_values(|x: KeyValue| x@),
            before_fn == key_order(),
            out@.map_values(|x: KeyValue| x@) == sort_stable(vs.take(i as int), before_fn),
        decreases v.len() - i,
    {
        let x = v[i].copy();
        assert(vs[i as int] == x@);
        let ghost prev = out@.map_values(|x: KeyValue| x@);
        let mut j = out.len();
        while j > 0 && bytes_less(x.key.as_slice(), out[j - 1].key.as_slice())
            invariant
                j <= out@.len(),
                prev == out@.map_values(|x: KeyValue| x@),
                before_fn == key_order(),
                forall|k: int| j <= k < prev.len() ==> before_fn(x@, #[trigger] prev[k]),
            decreases j,
        {
            assert(prev[j - 1] == out@[j - 1]@);
            assert(before_fn(x@, prev[j - 1]));
            j = j - 1;
        }
        proof {
            lemma_insert_stable_at(prev, x@, before_fn, j as int);
        }
        let ghost xv = x@;
        out.insert(j, x);
        proof {
            assert(out@.map_values(|x: KeyValue| x@) =~= prev.take(j as int).push(xv) + prev.skip(j as int));
            assert(vs.take(i + 1).drop_last() =~= vs.take(i as int));
            assert(vs.take(i + 1).last() == xv);
        }
        i = i + 1;
    }
    assert(vs.take(vs.len() as int) =~= vs);
    out
}

/// Consecutive pairs with equal keys gathered into (key, values) groups.
pub open spec fn groups(ps: Seq<(Seq<u8>, Seq<u8>)>) -> Seq<(Seq<u8>, Seq<Seq<u8>>)>
    decreases ps.len(),
{
    if ps.len() == 0 {
        Seq::empty()
    } else {
        let g = groups(ps.drop_last());
        let (k, v) = ps.last();
        if g.len() > 0 && g.last().0 == k {
            g.update(g.len() - 1, (k, g.last().1.push(v)))
        } else {
            g.push((k, seq![v]))
        }
    }
}

pub open spec fn groups_view(gs: Seq<(Vec<u8>, Vec<Vec<u8>>)>) -> Seq<(Seq<u8>, Seq<Seq<u8>>)> {
    gs.map_values(|g: (Vec<u8>, Vec<Vec<u8>>)| (g.0@, g.1@.map_values(|v: Vec<u8>| v@)))
}

/// Gathers consecutive pairs with equal keys.
fn group_by_key(ps: Vec<KeyValue>) -> (r: Vec<(Vec<u8>, Vec<Vec<u8>>)>)
    ensures
        groups_view(r@) == groups(ps@.map_values(|x: KeyValue| x@)),
{
    let ghost pv = ps@.map_values(|x: KeyValue| x@);
    let mut out: Vec<(Vec<u8>, Vec<Vec<u8>>)> = Vec::new();
    let mut i: usize = 0;
    while i < ps.len()
        invariant
            i <= ps@.len(),
            pv == ps@.map_values(|x: KeyValue| x@),
            groups_view(out@) == groups(pv.take(i as int)),
        decreases ps.len() - i,
    {
        let kv = &ps[i];
        assert(pv.take(i + 1).drop_last() =~= pv.take(i as int));
        assert(pv.take(i + 1).last() == kv@);
        let ghost g0 = groups_view(out@);
        let n = out.len();
        if n > 0 && bytes_eq(out[n - 1].0.as_slice(), kv.key.as_slice()) {
            let (k, mut vals) = out.pop().unwrap();
            let ghost vv = vals@.map_values(|v: Vec<u8>| v@);
            vals.push(kv.value.clone());
            assert(vals@.map_values(|v: Vec<u8>| v@) =~= vv.push(kv.value@));
            out.push((k, vals));
            assert(groups_view(out@) =~= g0.update(g0.len() - 1, (kv.key@, g0.last().1.push(kv.value@))));
        } else {
            let mut vals: Vec<Vec<u8>> = Vec::new();
            vals.push(kv.value.clone());
            assert(vals@.map_values(|v: Vec<u8>| v@) =~= seq![kv.value@]);
            out.push((kv.key.clone(), vals));
            assert(groups_view(out@) =~= g0.push((kv.key@, seq![kv.value@])));
        }
        i = i + 1;
    }
    assert(pv.take(ps@.len() as int) =~= pv);
    out
}

/// The reduce output of some groups: each key's frame, then the frame of
/// what the application made of its values; the first failure stops it.
pub open spec fn reduce_frames(app: Option<App>, gs: Seq<(Seq<u8>, Seq<Seq<u8>>)>) -> Result<Seq<u8>, SummaryError>
    decreases gs.len(),
{
    if gs.len() == 0 {
        Ok(Seq::empty())
    } else {
        match reduce_frames(app, gs.drop_last()) {
            Err(e) => Err(e),
            Ok(b) => match app_reduce(app, gs.last().1) {
                Ok(o) => Ok(b + frame(gs.last().0) + frame(o)),
                Err(e) => Err(e),
            },
        }
    }
}

proof fn lemma_reduce_frames_prefix_err(app: Option<App>, gs: Seq<(Seq<u8>, Seq<Seq<u8>>)>, k: int, e: SummaryError)
    requires
        0 <= k <= gs.len(),
        reduce_frames(app, gs.take(k)) == Err::<Seq<u8>, SummaryError>(e),
    ensures
        reduce_frames(app, gs) == Err::<Seq<u8>, SummaryError>(e),
    decreases gs.len() - k,
{
    if k < gs.len() {
        assert(gs.take(k + 1).drop_last() =~= gs.take(k));
        lemma_reduce_frames_prefix_err(app, gs, k + 1, e);
    } else {
        assert(gs.take(k) =~= gs);
    }
}

/// What a reduce task writes: the map results' pairs, sorted by key,
/// grouped by key, each group reduced by the application.
pub open spec fn reduce_output(app: Option<App>, results: Seq<Seq<u8>>) -> Result<Seq<u8>, ReduceError> {
    match intermediate(results) {
        None => Err(ReduceError::KeyWithoutValue),
        Some(ps) => match reduce_frames(app, groups(sort_stable(ps, key_order()))) {
            Ok(b) => Ok(b),
            Err(e) => Err(ReduceError::App(e)),
        },
    }
}

/// The output of a reduce task from the map results it fetched (each a
/// sequence of whole frames, as map workers write them).
pub fn reduce_task_output(app: Option<App>, results: &Vec<Vec<u8>>) -> (r: Result<Vec<u8>, ReduceError>)
    requires
        forall|i: int| 0 <= i < results@.len() ==> parse_frames(#[trigger] results@[i]@) is Some,
    ensures
        match reduce_output(app, results@.map_values(|b: Vec<u8>| b@)) {
            Ok(b) => r matches Ok(x) && x@ == b,
            Err(e) => r == Err::<Vec<u8>, ReduceError>(e),
        },
{
    let inter = match collect_intermediate(results) {
        Some(v) => v,
        None => return Err(ReduceError::KeyWithoutValue),
    };
    let sorted = sort_by_key(&inter);
    let gs = group_by_key(sorted);
    let ghost gv = groups_view(gs@);
    let ghost expected = reduce_output(app, results@.map_values(|b: Vec<u8>| b@));
    assert(expected == match reduce_frames(app, gv) {
        Ok(b) => Ok::<Seq<u8>, ReduceError>(b),
        Err(e) => Err(ReduceError::App(e)),
    });
    let mut w = LengthDelimitedWriter::new();
    let mut i: usize = 0;
    while i < gs.len()
        invariant
            i <= gs@.len(),
            gv == groups_view(gs@),
            expected == reduce_output(app, results@.map_values(|b: Vec<u8>| b@)),
            expected == match reduce_frames(app, gv) {
                Ok(b) => Ok::<Seq<u8>, ReduceError>(b),
                Err(e) => Err(ReduceError::App(e)),
            },
            reduce_frames(app, gv.take(i as int)) == Ok::<Seq<u8>, SummaryError>(w.buf@),
        decreases gs.len() - i,
    {
        let g = &gs[i];
        assert(gv.take(i + 1).drop_last() =~= gv.take(i as int));
        assert(gv.take(i + 1).last() == (g.0@, g.1@.map_values(|v: Vec<u8>| v@)));
        match reduce_with(app, g.0.as_slice(), &g.1) {
            Ok(o) => {
                w.send(g.0.as_slice());
                w.send(o.as_slice());
            },
            Err(e) => {
                proof {
                    assert(reduce_frames(app, gv.take(i + 1)) == Err::<Seq<u8>, SummaryError>(e));
                    lemma_reduce_frames_prefix_err(app, gv, i + 1, e);
                }
                return Err(ReduceError::App(e));
            },
        }
        i = i + 1;
    }
    assert(gv.take(gs@.len() as int) =~= gv);
    Ok(w.finish())
}

// ---------------------------------------------------------------------------
// the data a worker keeps
// ---------------------------------------------------------------------------

/// The slot of a (map task, reduce task) partition within a job.
pub open spec fn slot(map_task: u32, reduce_task: u32) -> u64 {
    (map_task as int * 0x1_0000_0000 + reduce_task as int) as u64
}

fn slot_of(map_task: u32, reduce_task: u32) -> (r: u64)
    ensures
        r == slot(map_task, reduce_task),
{
    map_task as u64 * 0x1_0000_0000 + reduce_task as u64
}

proof fn lemma_slot_injective(m1: u32, r1: u32, m2: u32, r2: u32)
    ensures
        slot(m1, r1) == slot(m2, r2) ==> m1 == m2 && r1 == r2,
{
    assert(m1 as int * 0x1_0000_0000 + r1 as int <= u64::MAX) by (nonlinear_arith);
    assert(m2 as int * 0x1_0000_0000 + r2 as int <= u64::MAX) by (nonlinear_arith);
    if slot(m1, r1) == slot(m2, r2) {
        assert(m1 as int * 0x1_0000_0000 + r1 as int == m2 as int * 0x1_0000_0000 + r2 as int);
        assert(m1 == m2 && r1 == r2) by (nonlinear_arith)
            requires
                m1 as int * 0x1_0000_0000 + r1 as int == m2 as int * 0x1_0000_0000 + r2 as int,
                r1 < 0x1_0000_0000,
                r2 < 0x1_0000_0000,
        ;
    }
}

/// The map outputs a worker keeps, by job and by (map task, reduce task).
pub struct WorkerState {
    data: HashMap<u32, HashMap<u64, Vec<u8>>>,
}

impl WorkerState {
    /// The partitions kept, by job and slot.
    pub closed spec fn view(&self) -> Map<u32, Map<u64, Seq<u8>>> {
        Map::new(
            |j: u32| self.data@.contains_key(j),
            |j: u32| Map::new(|k: u64| self.data@[j]@.contains_key(k), |k: u64| self.data@[j]@[k]@),
        )
    }

    /// The partition kept for a job's map task and reduce task.
    pub open spec fn stored(&self, job_id: u32, map_task: u32, reduce_task: u32) -> Option<Seq<u8>> {
        let v = self.view();
        if v.contains_key(job_id) && v[job_id].contains_key(slot(map_task, reduce_task)) {
            Some(v[job_id][slot(map_task, reduce_task)])
        } else {
            None
        }
    }

    /// Nothing kept.
    pub fn new() -> (w: Self)
        ensures
            forall|j: u32, m: u32, r: u32| #[trigger] w.stored(j, m, r) is None,
    {
        let w = WorkerState { data: HashMap::new() };
        assert(w.view() =~= Map::<u32, Map<u64, Seq<u8>>>::empty());
        w
    }

    /// The partition kept for a job's map task and reduce task.
    pub fn get_data(&self, job_id: u32, map_task: u32, reduce_task: u32) -> (r: Option<Vec<u8>>)
        ensures
            match self.stored(job_id, map_task, reduce_task) {
                Some(b) => r matches Some(x) && x@ == b,
                None => r is None,
            },
    {
        match self.data.get(&job_id) {
            None => None,
            Some(m) => {
                let k = slot_of(map_task, reduce_task);
                match m.get(&k) {
                    None => None,
                    Some(b) => Some(b.clone()),
                }
            },
        }
    }

    /// Keeps the partitions of a map task: partition `i` for reduce task `i`.
    pub fn store_map_output(&mut self, job_id: u32, map_task: u32, partitions: Vec<Vec<u8>>)
        requires
            partitions@.len() <= u32::MAX,
        ensures
            forall|j: u32, m: u32, r: u32|
                #[trigger] final(self).stored(j, m, r) == if j == job_id && m == map_task && r < partitions@.len() {
                    Some(partitions@[r as int]@)
                } else {
                    old(self).stored(j, m, r)
                },
    {
        let ghost s0 = self.view();
        let mut inner = match self.data.remove(&job_id) {
            Some(m) => m,
            None => HashMap::new(),
        };
        let ghost i0 = inner@;
        let mut i: usize = 0;
        while i < partitions.len()
            invariant
                i <= partitions@.len(),
                partitions@.len() <= u32::MAX,
                forall|k: u64|
                    #[trigger] inner@.contains_key(k) <== (i0.contains_key(k) || exists|r: u32| r < i && k == slot(map_task, r)),
                forall|k: u64|
                    #[trigger] inner@.contains_key(k) ==> (i0.contains_key(k) || exists|r: u32| r < i && k == slot(map_task, r)),
                forall|r: u32| r < i ==> #[trigger] inner@.contains_key(slot(map_task, r)) && inner@[slot(map_task, r)]@ == partitions@[r as int]@,
                forall|k: u64|
                    i0.contains_key(k) && !(exists|r: u32| r < i && k == slot(map_task, r)) ==> #[trigger] inner@[k] == i0[k],
            decreases partitions.len() - i,
        {
            let k = slot_of(map_task, i as u32);
            let b = partitions[i].clone();
            let ghost before = inner@;
            inner.insert(k, b);
            proof {
                assert forall|r: u32| r < i + 1 implies #[trigger] inner@.contains_key(slot(map_task, r)) && inner@[slot(map_task, r)]@ == partitions@[r as int]@ by {
                    lemma_slot_injective(map_task, r, map_task, i as u32);
                }
                assert forall|kk: u64| #[trigger] inner@.contains_key(kk) implies (i0.contains_key(kk) || exists|r: u32| r < i + 1 && kk == slot(map_task, r)) by {
                    if inner@.contains_key(kk) && kk == k {
                        assert(kk == slot(map_task, i as u32));
                    }
                }
                assert forall|kk: u64| i0.contains_key(kk) && !(exists|r: u32| r < i + 1 && kk == slot(map_task, r)) implies #[trigger] inner@[kk] == i0[kk] by {
                    assert(kk != slot(map_task, i as u32));
                }
            }
            i = i + 1;
        }
        self.data.insert(job_id, inner);
        proof {
            assert forall|j: u32, m: u32, r: u32|
                #[trigger] self.stored(j, m, r) == if j == job_id && m == map_task && r < partitions@.len() {
                    Some(partitions@[r as int]@)
                } else {
                    old(self).stored(j, m, r)
                } by {
                if j == job_id {
                    let k = slot(m, r);
                    if m == map_task && r < partitions@.len() {
                    } else {
                        if exists|r2: u32| r2 < partitions@.len() && k == slot(map_task, r2) {
                            let r2 = choose|r2: u32| r2 < partitions@.len() && k == slot(map_task, r2);
                            lemma_slot_injective(m, r, map_task, r2);
                        }
                    }
                }
            }
        }
    }

    /// Drops everything kept for a job.
    pub fn remove_job(&mut self, job_id: u32)
        ensures
            forall|j: u32, m: u32, r: u32|
                #[trigger] final(self).stored(j, m, r) == if j == job_id {
                    None
                } else {
                    old(self).stored(j, m, r)
                },
    {
        self.data.remove(&job_id);
    }
}

/// Why a worker refuses to hand out map data.
#[derive(Debug, Clone, PartialEq, Eq)]
pub enum ReadMapError {
    /// Nothing is kept for the task; the message says so.
    InvalidArgument(String),
}

/// The answer to another worker reading a partition: the bytes kept, or
/// `worker does not have data for the given task`.
pub fn read_map(state: &WorkerState, job_id: u32, map_task: u32, reduce_task: u32) -> (r: Result<Vec<u8>, ReadMapError>)
    ensures
        match state.stored(job_id, map_task, reduce_task) {
            Some(b) => r matches Ok(x) && x@ == b,
            None => r matches Err(ReadMapError::InvalidArgument(m)) && m@
                == "worker does not have data for the given task"@,
        },
{
    match state.get_data(job_id, map_task, reduce_task) {
        Some(b) => Ok(b),
        None => Err(ReadMapError::InvalidArgument("worker does not have data for the given task".to_owned())),
    }
}

// ---------------------------------------------------------------------------
// tasks
// ---------------------------------------------------------------------------

/// A map task to run.
#[derive(Debug)]
pub struct MapPlan {
    pub job_id: u32,
    pub task: u32,
    pub file: String,
    pub n_reduce: u32,
    pub app: Option<App>,
}

/// A reduce task to run.
#[derive(Debug)]
pub struct ReducePlan {
    pub job_id: u32,
    pub task: u32,
    pub output_dir: String,
    pub map_tasks: Vec<MapTaskAssignment>,
    pub app: Option<App>,
}

/// What a worker does with the coordinator's answer.
#[derive(Debug)]
pub enum TaskPlan {
    /// Nothing to do yet: wait, then ask again.
    Wait,
    RunMap(MapPlan),
    RunReduce(ReducePlan),
}

/// The application a task names; an empty name means `benefit-evaluator`.
pub open spec fn task_app(name: Seq<char>) -> Option<App> {
    let n = if name.len() == 0 {
        "benefit-evaluator"@
    } else {
        name
    };
    if n == "benefit_evaluator"@ || n == "benefit-evaluator"@ {
        Some(App::BenefitEvaluator)
    } else {
        None
    }
}

/// Decides what to do with a task: wait when told to; otherwise run the
/// map or reduce task with the named application (4 reduce tasks when the
/// count is 0).
pub fn plan_task(reply: &TaskReply) -> (r: TaskPlan)
    ensures
        reply.wait ==> r is Wait,
        !reply.wait && reply.reduce ==> (r matches TaskPlan::RunReduce(p) && p.job_id == reply.job_id
            && p.task == reply.task && p.output_dir@ == reply.output_dir@ && p.map_tasks@
            == reply.map_task_assignments@ && p.app == task_app(reply.app@)),
        !reply.wait && !reply.reduce ==> (r matches TaskPlan::RunMap(p) && p.job_id == reply.job_id && p.task
            == reply.task && p.file@ == reply.file@ && p.n_reduce == (if reply.n_reduce == 0 {
            4
        } else {
            reply.n_reduce
        }) && p.app == task_app(reply.app@)),
{
    if reply.wait {
        return TaskPlan::Wait;
    }
    let app = if reply.app.as_str().is_empty() {
        get_app("benefit-evaluator")
    } else {
        get_app(reply.app.as_str())
    };
    proof {
        reveal_strlit("benefit-evaluator");
        reveal_strlit("benefit_evaluator");
    }
    if reply.reduce {
        TaskPlan::RunReduce(
            ReducePlan {
                job_id: reply.job_id,
                task: reply.task,
                output_dir: reply.output_dir.clone(),
                map_tasks: reply.map_task_assignments.clone(),
                app,
            },
        )
    } else {
        TaskPlan::RunMap(
            MapPlan {
                job_id: reply.job_id,
                task: reply.task,
                file: reply.file.clone(),
                n_reduce: if reply.n_reduce == 0 {
                    4
                } else {
                    reply.n_reduce
                },
                app,
            },
        )
    }
}

/// The pairs a map task emits for a file's bytes: the application's map,
/// or the line map when there is none.
pub open spec fn map_pairs(app: Option<App>, content: Seq<u8>) -> Option<Seq<(Seq<u8>, Seq<u8>)>> {
    match app {
        Some(App::BenefitEvaluator) => if vstd::utf8::valid_utf8(content) {
            Some(crate::transaction_summary::summary_pairs(lines(vstd::utf8::decode_utf8(content))))
        } else {
            None
        },
        None => Some(line_pairs(lines(utf8_lossy(content)))),
    }
}

/// Runs a map task over a file's bytes: the partitions for the reduce
/// tasks, or the application's failure. The pairs are partitioned by the
/// hashes the hasher gave for their keys, one per pair; no particular hash
/// values are promised (see [`partition_map_output`] for the split itself).
pub fn run_map(app: Option<App>, file: &str, content: Vec<u8>, n_reduce: u32) -> (r: Result<Vec<Vec<u8>>, SummaryError>)
    requires
        n_reduce > 0,
    ensures
        match map_pairs(app, content@) {
            Some(ps) => r matches Ok(parts) && parts@.len() == n_reduce && partitioned_by_key(ps, parts@, n_reduce),
            None => r == Err::<Vec<Vec<u8>>, SummaryError>(SummaryError::InvalidUtf8),
        },
{
    let kv = KeyValue::new(crate::text::utf8_bytes(file), content);
    let pairs = match app {
        Some(App::BenefitEvaluator) => match crate::transaction_summary::map(kv) {
            Ok(p) => p,
            Err(e) => return Err(e),
        },
        None => transaction_map_fn(kv),
    };
    let hashes = key_hashes(&pairs);
    let parts = partition_map_output(&pairs, &hashes, n_reduce);
    proof {
        let ps = pairs@.map_values(|x: KeyValue| x@);
        assert(hashes@.len() == ps.len());
        assert forall|i: int, j: int|
            #![trigger hashes@[i], hashes@[j]]
            0 <= i < ps.len() && 0 <= j < ps.len() && ps[i].0 == ps[j].0 implies hashes@[i] == hashes@[j] by {
            assert(ps[i].0 == pairs@[i].key@);
            assert(ps[j].0 == pairs@[j].key@);
        }
        assert(hashes_follow_keys(ps, hashes@));
        assert(forall|i: int|
            0 <= i < n_reduce ==> (#[trigger] parts@[i])@ == partition_bytes(ps, hashes@, n_reduce, i));
        lemma_partitioned_by(ps, hashes@, parts@, n_reduce);
    }
    Ok(parts)
}

/// Where a reduce task's output goes: `{output_dir}/mr-out-{task}`.
pub fn reduce_output_path(output_dir: &str, task: u32) -> (r: String)
    ensures
        r@ == output_dir@ + "/mr-out-"@ + crate::text::decimal(task as nat),
{
    let mut r = output_dir.to_owned();
    crate::text::push_str(&mut r, "/mr-out-");
    crate::text::push_decimal(&mut r, task as u64);
    r
}


// ---------------------------------------------------------------------------
// laws
// ---------------------------------------------------------------------------

proof fn lemma_groups_of_sorted(s: Seq<(Seq<u8>, Seq<u8>)>)
    requires
        forall|i: int, j: int| 0 <= i < j < s.len() ==> !bytes_lt(#[trigger] s[j].0, #[trigger] s[i].0),
    ensures
        groups(s).len() == 0 <==> s.len() == 0,
        s.len() > 0 ==> groups(s).last().0 == s.last().0,
        forall|i: int, j: int| 0 <= i < j < groups(s).len() ==> bytes_lt(#[trigger] groups(s)[i].0, #[trigger] groups(s)[j].0),
    decreases s.len(),
{
    if s.len() > 0 {
        let d = s.drop_last();
        assert forall|i: int, j: int| 0 <= i < j < d.len() implies !bytes_lt(#[trigger] d[j].0, #[trigger] d[i].0) by {
            assert(d[i] == s[i] && d[j] == s[j]);
        }
        lemma_groups_of_sorted(d);
        let g = groups(d);
        let (k, v) = s.last();
        assert(s[s.len() - 1] == s.last());
        if g.len() > 0 && g.last().0 == k {
            let g1 = g.update(g.len() - 1, (k, g.last().1.push(v)));
            assert(groups(s) == g1);
            assert forall|i: int, j: int| 0 <= i < j < g1.len() implies bytes_lt(#[trigger] g1[i].0, #[trigger] g1[j].0) by {
                assert(g1[i].0 == g[i].0 && g1[j].0 == g[j].0);
            }
        } else {
            let g1 = g.push((k, seq![v]));
            assert(groups(s) == g1);
            if g.len() > 0 {
                let p = g.last().0;
                assert(p == d.last().0);
                assert(d.last() == s[s.len() - 2]);
                assert(!bytes_lt(k, p));
                lemma_bytes_lt_facts(p, k, k);
                assert(bytes_lt(p, k));
                assert forall|i: int, j: int| 0 <= i < j < g1.len() implies bytes_lt(#[trigger] g1[i].0, #[trigger] g1[j].0) by {
                    if j == g.len() {
                        if i < g.len() - 1 {
                            assert(bytes_lt(g[i].0, g[g.len() - 1].0));
                            lemma_bytes_lt_facts(g[i].0, p, k);
                        }
                    } else {
                        assert(g1[i] == g[i] && g1[j] == g[j]);
                    }
                }
            }
        }
    }
}

/// What a reduce task reduces: every key of the fetched pairs once, in
/// increasing byte order, and the pairs themselves all kept (sorted by key,
/// pairs of one key in the order fetched).
pub proof fn law_reduce_groups_keys_increasing(ps: Seq<(Seq<u8>, Seq<u8>)>)
    ensures
        forall|i: int, j: int|
            0 <= i < j < groups(sort_stable(ps, key_order())).len() ==> bytes_lt(
                #[trigger] groups(sort_stable(ps, key_order()))[i].0,
                #[trigger] groups(sort_stable(ps, key_order()))[j].0,
            ),
        sort_stable(ps, key_order()).to_multiset() == ps.to_multiset(),
{
    let before = key_order();
    assert forall|a: (Seq<u8>, Seq<u8>), b: (Seq<u8>, Seq<u8>)| #[trigger] before(a, b) implies !before(b, a) by {
        lemma_bytes_lt_facts(a.0, b.0, b.0);
    }
    assert forall|a: (Seq<u8>, Seq<u8>), b: (Seq<u8>, Seq<u8>), c: (Seq<u8>, Seq<u8>)|
        #![trigger before(a, b), before(b, c)]
        !before(a, b) && !before(b, c) implies !before(a, c) by {
        lemma_bytes_lt_facts(a.0, b.0, c.0);
        lemma_bytes_lt_facts(c.0, b.0, a.0);
        lemma_bytes_lt_facts(b.0, c.0, a.0);
        lemma_bytes_lt_facts(a.0, c.0, b.0);
    }
    crate::order::law_sort_stable_sorted_permutation(ps, before);
    let s = sort_stable(ps, before);
    assert forall|i: int, j: int| 0 <= i < j < s.len() implies !bytes_lt(#[trigger] s[j].0, #[trigger] s[i].0) by {
        assert(!before(s[j], s[i]));
    }
    lemma_groups_of_sorted(s);
}

/// The key and reduced value of each group, in order; the first failure of
/// the application stops it.
pub open spec fn reduced_pairs(app: Option<App>, gs: Seq<(Seq<u8>, Seq<Seq<u8>>)>) -> Result<
    Seq<(Seq<u8>, Seq<u8>)>,
    SummaryError,
>
    decreases gs.len(),
{
    if gs.len() == 0 {
        Ok(Seq::empty())
    } else {
        match reduced_pairs(app, gs.drop_last()) {
            Err(e) => Err(e),
            Ok(ps) => match app_reduce(app, gs.last().1) {
                Ok(o) => Ok(ps.push((gs.last().0, o))),
                Err(e) => Err(e),
            },
        }
    }
}

pub open spec fn ok_pairs(r: Result<Seq<(Seq<u8>, Seq<u8>)>, SummaryError>) -> Seq<(Seq<u8>, Seq<u8>)> {
    match r {
        Ok(ps) => ps,
        Err(_) => Seq::empty(),
    }
}

proof fn lemma_reduce_frames_layout(app: Option<App>, gs: Seq<(Seq<u8>, Seq<Seq<u8>>)>)
    ensures
        reduce_frames(app, gs) == match reduced_pairs(app, gs) {
            Ok(ps) => Ok::<Seq<u8>, SummaryError>(pairs_bytes(ps)),
            Err(e) => Err(e),
        },
    decreases gs.len(),
{
    if gs.len() > 0 {
        lemma_reduce_frames_layout(app, gs.drop_last());
        match reduced_pairs(app, gs.drop_last()) {
            Ok(ps) => {
                match app_reduce(app, gs.last().1) {
                    Ok(o) => {
                        lemma_pairs_bytes_push(ps, (gs.last().0, o));
                    },
                    Err(_) => {},
                }
            },
            Err(_) => {},
        }
    }
}

/// What a reduce task writes is read back by the coordinator as written:
/// the output is each group's key frame and reduced value frame, in order,
/// and decoding it gives exactly those pairs.
pub proof fn law_reduce_output_reads_back(app: Option<App>, gs: Seq<(Seq<u8>, Seq<Seq<u8>>)>)
    requires
        reduced_pairs(app, gs) is Ok,
        pairs_fit(ok_pairs(reduced_pairs(app, gs))),
    ensures
        reduce_frames(app, gs) == Ok::<Seq<u8>, SummaryError>(pairs_bytes(ok_pairs(reduced_pairs(app, gs)))),
        decode_pairs(pairs_bytes(ok_pairs(reduced_pairs(app, gs)))) == ok_pairs(reduced_pairs(app, gs)),
{
    lemma_reduce_frames_layout(app, gs);
    law_pairs_roundtrip(ok_pairs(reduced_pairs(app, gs)));
}

/// Law: pairs with the same key go to the same reduce task, whatever the
/// hashes are, as long as they agree wherever the keys do (as the map
/// step's hashes do).
pub proof fn law_same_key_same_partition(ps: Seq<(Seq<u8>, Seq<u8>)>, hs: Seq<u64>, n_reduce: u32, i: int, j: int)
    requires
        hashes_follow_keys(ps, hs),
        0 <= i < ps.len(),
        0 <= j < ps.len(),
        ps[i].0 == ps[j].0,
    ensures
        partition_of(hs[i], n_reduce) == partition_of(hs[j], n_reduce),
{
    assert(hs[i] == hs[j]);
}

} // verus!
