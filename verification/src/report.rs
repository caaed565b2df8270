//! The benefit report over a job's reduced output: the per-customer
//! records in key order, the rule engine's input for each, whether the rule
//! granted cashback, and where the report goes.

use vstd::prelude::*;
use crate::codec::{KeyValue, be_u64_at, read_u64_be};
use crate::json::{
    JsonValue, JsonView, JsonNumber, jview, get, get_opt, as_str, as_u64, get_member, get_member_opt,
    value_as_str, value_as_u64, object_of, pairs_view,
};
use crate::order::{sort_stable, lex_lt, chars_lt, lemma_insert_stable_at};
use crate::text::{utf8_lossy, utf8_lossy_string, chars_of, push_str};
use crate::worker::{key_order, sort_by_key};

verus! {

/// One customer's record in the report.
#[derive(Debug, Clone, PartialEq, Eq)]
pub struct CustomerRecord {
    pub customer_id: String,
    pub sum: u64,
    pub count: u64,
    pub debit: u64,
    pub credit: u64,
}

/// Customer, sum, count, debit and credit.
pub type RecordView = (Seq<char>, u64, u64, u64, u64);

impl View for CustomerRecord {
    type V = RecordView;

    open spec fn view(&self) -> RecordView {
        (self.customer_id@, self.sum, self.count, self.debit, self.credit)
    }
}

/// The records of some reduced pairs: the key read as lossy UTF-8 and the
/// four big-endian numbers of the value; pairs whose value is shorter than
/// 32 bytes are skipped.
pub open spec fn records_of(kvs: Seq<(Seq<u8>, Seq<u8>)>) -> Seq<RecordView>
    decreases kvs.len(),
{
    if kvs.len() == 0 {
        Seq::empty()
    } else {
        let r = records_of(kvs.drop_last());
        let (k, v) = kvs.last();
        if v.len() < 32 {
            r
        } else {
            r.push(
                (
                    utf8_lossy(k),
                    be_u64_at(v, 0) as u64,
                    be_u64_at(v, 8) as u64,
                    be_u64_at(v, 16) as u64,
                    be_u64_at(v, 24) as u64,
                ),
            )
        }
    }
}

/// The report's records: the pairs sorted by key (pairs of one key in the
/// order given), then read as records.
pub fn report_records(kvs: &Vec<KeyValue>) -> (r: Vec<CustomerRecord>)
    ensures
        r@.map_values(|x: CustomerRecord| x@) == records_of(
            sort_stable(kvs@.map_values(|x: KeyValue| x@), key_order()),
        ),
{
    let sorted = sort_by_key(kvs);
    let ghost sv = sorted@.map_values(|x: KeyValue| x@);
    let mut out: Vec<CustomerRecord> = Vec::new();
    let mut i: usize = 0;
    while i < sorted.len()
        invariant
            i <= sorted@.len(),
            sv == sorted@.map_values(|x: KeyValue| x@),
            out@.map_values(|x: CustomerRecord| x@) == records_of(sv.take(i as int)),
        decreases sorted.len() - i,
    {
        let kv = &sorted[i];
        assert(sv.take(i + 1).drop_last() =~= sv.take(i as int));
        assert(sv.take(i + 1).last() == kv@);
        if kv.value.len() >= 32 {
            let rec = CustomerRecord {
                customer_id: utf8_lossy_string(kv.key.as_slice()),
                sum: read_u64_be(kv.value.as_slice(), 0),
                count: read_u64_be(kv.value.as_slice(), 8),
                debit: read_u64_be(kv.value.as_slice(), 16),
                credit: read_u64_be(kv.value.as_slice(), 24),
            };
            let ghost before = out@.map_values(|x: CustomerRecord| x@);
            out.push(rec);
            assert(out@.map_values(|x: CustomerRecord| x@) =~= before.push(rec@));
        }
        i = i + 1;
    }
    assert(sv.take(sorted@.len() as int) =~= sv);
    out
}

/// The rule engine's input for a customer's totals:
/// `{"transaction": {"transaction_today": {"count": .., "sum": ..}}}`.
pub open spec fn totals_input_view(sum: u64, count: u64) -> JsonView {
    JsonView::Object(
        seq![
            (
                "transaction"@,
                JsonView::Object(
                    seq![
                        (
                            "transaction_today"@,
                            JsonView::Object(
                                seq![("count"@, JsonView::PosInt(count)), ("sum"@, JsonView::PosInt(sum))],
                            ),
                        ),
                    ],
                ),
            ),
        ],
    )
}

fn text(s: &str) -> (r: String)
    ensures
        r@ == s@,
{
    s.to_owned()
}

/// Builds the rule engine's input for a customer's totals.
pub fn totals_input(sum: u64, count: u64) -> (r: JsonValue)
    ensures
        jview(r) == totals_input_view(sum, count),
{
    let mut inner: Vec<(String, JsonValue)> = Vec::new();
    inner.push((text("count"), JsonValue::Number(JsonNumber::PosInt(count))));
    inner.push((text("sum"), JsonValue::Number(JsonNumber::PosInt(sum))));
    let ghost iv = inner@;
    let today = object_of(inner);
    assert(pairs_view(iv) =~= seq![("count"@, JsonView::PosInt(count)), ("sum"@, JsonView::PosInt(sum))]);
    let ghost tv = jview(today);
    let mut mid: Vec<(String, JsonValue)> = Vec::new();
    mid.push((text("transaction_today"), today));
    let ghost mv = mid@;
    let tx = object_of(mid);
    assert(pairs_view(mv) =~= seq![("transaction_today"@, tv)]);
    let ghost xv = jview(tx);
    let mut root: Vec<(String, JsonValue)> = Vec::new();
    root.push((text("transaction"), tx));
    let ghost rv = root@;
    let r = object_of(root);
    assert(pairs_view(rv) =~= seq![("transaction"@, xv)]);
    r
}

/// What the rule engine's result says: the benefit's type (empty when it
/// has none), its amount (0 when it has none) and whether it is a cashback
/// of some amount.
pub open spec fn cashback_outcome_view(result: JsonView) -> (bool, Seq<char>, u64) {
    let b = get(result, "benefit"@);
    let t = match as_str(get_opt(b, "type"@)) {
        Some(s) => s,
        None => Seq::empty(),
    };
    let a = match as_u64(get_opt(b, "amount"@)) {
        Some(n) => n,
        None => 0,
    };
    (t == "CASHBACK"@ && a != 0, t, a)
}

/// Reads the rule engine's result for a customer.
pub fn cashback_outcome(result: &JsonValue) -> (r: (bool, String, u64))
    ensures
        (r.0, r.1@, r.2) == cashback_outcome_view(jview(*result)),
{
    let benefit = get_member(result, &chars_of("benefit"));
    let t = match value_as_str(get_member_opt(benefit, &chars_of("type"))) {
        Some(s) => s,
        None => String::new(),
    };
    let a = match value_as_u64(get_member_opt(benefit, &chars_of("amount"))) {
        Some(n) => n,
        None => 0,
    };
    let is_cashback = crate::text::str_is(t.as_str(), &chars_of("CASHBACK"));
    (is_cashback && a != 0, t, a)
}

/// The status written for a customer.
pub fn match_status(matched: bool) -> (r: &'static str)
    ensures
        r@ == if matched {
            "MATCH"@
        } else {
            "NO_MATCH"@
        },
{
    if matched {
        "MATCH"
    } else {
        "NO_MATCH"
    }
}

/// Whether a file in the output directory is a reduce output (`mr-out-*`).
pub fn is_reduce_output_name(name: &str) -> (r: bool)
    ensures
        r == (name@.len() >= 7 && name@.take(7) == "mr-out-"@),
{
    let v = chars_of(name);
    let p = chars_of("mr-out-");
    proof {
        reveal_strlit("mr-out-");
    }
    if v.len() < 7 {
        return false;
    }
    let mut i: usize = 0;
    while i < 7
        invariant
            i <= 7,
            v@ == name@,
            v@.len() >= 7,
            p@ == "mr-out-"@,
            p@.len() == 7,
            forall|j: int| 0 <= j < i ==> v@[j] == p@[j],
        decreases 7 - i,
    {
        if v[i] != p[i] {
            assert(v@.take(7)[i as int] != p@[i as int]);
            assert(v@.take(7) != p@);
            assert(name@.take(7) != "mr-out-"@);
            return false;
        }
        i = i + 1;
    }
    assert(v@.take(7) =~= p@);
    true
}

/// The rule's name: the rule file's stem, or `cashback` without one.
pub fn decision_name(stem: Option<&str>) -> (r: String)
    ensures
        r@ == match stem {
            Some(s) => s@,
            None => "cashback"@,
        },
{
    match stem {
        Some(s) => s.to_owned(),
        None => text("cashback"),
    }
}

/// The report's file name: `{datetime}-{decision}.txt`.
pub fn report_file_name(datetime: &str, decision: &str) -> (r: String)
    ensures
        r@ == datetime@ + "-"@ + decision@ + ".txt"@,
{
    let mut r = datetime.to_owned();
    push_str(&mut r, "-");
    push_str(&mut r, decision);
    push_str(&mut r, ".txt");
    r
}


/// Whether a file name is a reduce output's (`mr-out-*`).
pub open spec fn reduce_output_name(name: Seq<char>) -> bool {
    name.len() >= 7 && name.take(7) == "mr-out-"@
}

/// Whether a file name has the extension `txt` (a name that is only `.txt`
/// has none).
pub open spec fn txt_name(name: Seq<char>) -> bool {
    name.len() > 4 && name.skip(name.len() - 4) == ".txt"@
}

/// The names that `keep` holds of, in order.
pub open spec fn names_where(names: Seq<Seq<char>>, keep: spec_fn(Seq<char>) -> bool) -> Seq<Seq<char>>
    decreases names.len(),
{
    if names.len() == 0 {
        Seq::empty()
    } else {
        let r = names_where(names.drop_last(), keep);
        if keep(names.last()) {
            r.push(names.last())
        } else {
            r
        }
    }
}

/// The names of reduce outputs.
pub open spec fn output_filter() -> spec_fn(Seq<char>) -> bool {
    |n: Seq<char>| reduce_output_name(n)
}

/// The names of files other than the benefit reports.
pub open spec fn other_filter(in_benefit_dir: bool) -> spec_fn(Seq<char>) -> bool {
    |n: Seq<char>| !(in_benefit_dir && txt_name(n))
}

/// Names in the order of their text.
pub open spec fn name_order() -> spec_fn(Seq<char>, Seq<char>) -> bool {
    |a: Seq<char>, b: Seq<char>| lex_lt(a, b)
}

/// The files of the output directory that the report reads, by name: its
/// reduce outputs if it has any, else every file but the `.txt` benefit
/// reports (when the directory is the `benefit` directory), sorted by name.
pub open spec fn report_inputs(names: Seq<Seq<char>>, in_benefit_dir: bool) -> Seq<Seq<char>> {
    let outputs = names_where(names, output_filter());
    if outputs.len() > 0 {
        sort_stable(outputs, name_order())
    } else {
        sort_stable(names_where(names, other_filter(in_benefit_dir)), name_order())
    }
}

/// Whether a file name ends in `.txt` after something.
fn is_txt_name(name: &str) -> (r: bool)
    ensures
        r == txt_name(name@),
{
    let v = chars_of(name);
    let n = v.len();
    if n <= 4 {
        return false;
    }
    let r = v[n - 4] == '.' && v[n - 3] == 't' && v[n - 2] == 'x' && v[n - 1] == 't';
    proof {
        reveal_strlit(".txt");
        if r {
            assert(v@.skip(n - 4) =~= ".txt"@);
        } else {
            if v@.skip(n - 4) == ".txt"@ {
                assert(v@.skip(n - 4)[0] == '.');
                assert(v@.skip(n - 4)[1] == 't');
                assert(v@.skip(n - 4)[2] == 'x');
                assert(v@.skip(n - 4)[3] == 't');
            }
        }
    }
    r
}

/// Sorts names in the order of their text (stably).
fn sort_names(names: Vec<String>) -> (r: Vec<String>)
    ensures
        r@.map_values(|s: String| s@) == sort_stable(names@.map_values(|s: String| s@), name_order()),
{
    let ghost all = names@.map_values(|s: String| s@);
    let ghost before = name_order();
    let mut out: Vec<String> = Vec::new();
    let mut keys: Vec<Vec<char>> = Vec::new();
    let mut i: usize = 0;
    while i < names.len()
        invariant
            i <= names@.len(),
            all == names@.map_values(|s: String| s@),
            before == name_order(),
            out@.map_values(|s: String| s@) == sort_stable(all.take(i as int), before),
            keys@.len() == out@.len(),
            forall|k: int| 0 <= k < out@.len() ==> (#[trigger] keys@[k])@ == out@[k]@,
        decreases names.len() - i,
    {
        let name = names[i].clone();
        let key = chars_of(name.as_str());
        let ghost prev = out@.map_values(|s: String| s@);
        let mut j = out.len();
        while j > 0 && chars_lt(&key, &keys[j - 1])
            invariant
                j <= out@.len(),
                keys@.len() == out@.len(),
                prev == out@.map_values(|s: String| s@),
                key@ == name@,
                forall|k: int| 0 <= k < out@.len() ==> (#[trigger] keys@[k])@ == out@[k]@,
                forall|k: int| j <= k < prev.len() ==> before(name@, #[trigger] prev[k]),
                before == name_order(),
            decreases j,
        {
            assert(prev[j - 1] == out@[j - 1]@);
            j = j - 1;
        }
        proof {
            if j > 0 {
                assert(prev[j - 1] == out@[j - 1]@);
            }
            lemma_insert_stable_at(prev, name@, before, j as int);
            assert(all.take(i + 1).drop_last() =~= all.take(i as int));
            assert(all.take(i + 1).last() == name@);
        }
        let ghost prev_keys = keys@;
        let ghost prev_out = out@;
        out.insert(j, name);
        keys.insert(j, key);
        proof {
            assert(out@.map_values(|s: String| s@) =~= prev.take(j as int).push(name@) + prev.skip(j as int));
            assert forall|k: int| 0 <= k < out@.len() implies (#[trigger] keys@[k])@ == out@[k]@ by {
                if k < j {
                    assert(keys@[k] == prev_keys[k]);
                    assert(out@[k] == prev_out[k]);
                } else if k > j {
                    assert(keys@[k] == prev_keys[k - 1]);
                    assert(out@[k] == prev_out[k - 1]);
                }
            }
        }
        i = i + 1;
    }
    assert(all.take(names@.len() as int) =~= all);
    out
}

/// Chooses, out of the names of the files in the output directory, the
/// ones the report reads (see [`report_inputs`]).
pub fn select_report_inputs(names: &Vec<String>, in_benefit_dir: bool) -> (r: Vec<String>)
    ensures
        r@.map_values(|s: String| s@) == report_inputs(names@.map_values(|s: String| s@), in_benefit_dir),
{
    let ghost all = names@.map_values(|s: String| s@);
    let mut outputs: Vec<String> = Vec::new();
    let mut others: Vec<String> = Vec::new();
    let mut i: usize = 0;
    while i < names.len()
        invariant
            i <= names@.len(),
            all == names@.map_values(|s: String| s@),
            outputs@.map_values(|s: String| s@) == names_where(all.take(i as int), output_filter()),
            others@.map_values(|s: String| s@) == names_where(all.take(i as int), other_filter(in_benefit_dir)),
        decreases names.len() - i,
    {
        let name = &names[i];
        proof {
            assert(all.take(i + 1).drop_last() =~= all.take(i as int));
            assert(all.take(i + 1).last() == name@);
        }
        let ghost o0 = outputs@.map_values(|s: String| s@);
        let ghost t0 = others@.map_values(|s: String| s@);
        let is_out = is_reduce_output_name(name.as_str());
        if is_out {
            let c = name.clone();
            outputs.push(c);
            assert(outputs@.map_values(|s: String| s@) =~= o0.push(name@));
        }
        let is_other = !(in_benefit_dir && is_txt_name(name.as_str()));
        if is_other {
            let c = name.clone();
            others.push(c);
            assert(others@.map_values(|s: String| s@) =~= t0.push(name@));
        }
        proof {
            assert(output_filter()(name@) == is_out);
            assert(other_filter(in_benefit_dir)(name@) == is_other);
            assert(outputs@.map_values(|s: String| s@) =~= names_where(all.take(i + 1), output_filter()));
            assert(others@.map_values(|s: String| s@) =~= names_where(all.take(i + 1), other_filter(in_benefit_dir)));
        }
        i = i + 1;
    }
    assert(all.take(names@.len() as int) =~= all);
    if outputs.len() > 0 {
        sort_names(outputs)
    } else {
        sort_names(others)
    }
}

} // verus!
