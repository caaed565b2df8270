//! The evaluator service's decisions: the rule engine's input for a
//! request, the benefits read out of each rule's result, the reply, the
//! idempotency key of a stored benefit and which benefit row to store.

use vstd::prelude::*;
use vstd::utf8::encode_utf8;
use sha2::Digest;
use crate::json::{
    JsonValue, JsonView, JsonList, jview, list_view, get, member, as_str, as_i64, as_u64, int_view, int_value,
    get_member, value_as_str, value_as_i64, value_as_u64, object_of, array_of, pairs_view,
    values_view, opt_view,
};
use crate::text::{
    push_str, push_char, push_decimal, push_decimal_i64, decimal, decimal_i64, utf8_bytes, chars_of,
    parse_u64, parse_u64_chars, has_part, contains_text,
};

verus! {

/// A customer of an evaluation request.
#[derive(Debug, Clone, Copy, PartialEq, Eq, Structural)]
pub struct Customer {
    pub customer_id: i64,
}

/// A customer's transaction totals for one day.
#[derive(Debug, Clone, Copy, PartialEq, Eq, Structural)]
pub struct TransactionData {
    pub sum: i64,
    pub avg: i64,
    pub count: i64,
}

/// Transaction totals of a request.
#[derive(Debug, Clone, Copy, PartialEq, Eq, Structural)]
pub struct Transaction {
    pub transaction_today: Option<TransactionData>,
}

/// A request to evaluate one customer against an evaluator's rules.
#[derive(Debug, Clone, Copy, PartialEq, Eq, Structural)]
pub struct EvaluateRequest {
    pub evaluator_id: i64,
    pub customer: Option<Customer>,
    pub transaction: Option<Transaction>,
    pub job_id: u64,
}

/// A benefit that a rule grants.
#[derive(Debug, Clone, PartialEq, Eq)]
pub struct Benefit {
    pub benefit_type: String,
    pub amount: i64,
}

impl View for Benefit {
    type V = (Seq<char>, i64);

    open spec fn view(&self) -> (Seq<char>, i64) {
        (self.benefit_type@, self.amount)
    }
}

pub open spec fn benefits_view(bs: Seq<Benefit>) -> Seq<(Seq<char>, i64)> {
    bs.map_values(|b: Benefit| b@)
}

/// An owned copy of a literal.
fn text(s: &str) -> (r: String)
    ensures
        r@ == s@,
{
    s.to_owned()
}

/// The transaction totals of a request, if it has them.
pub open spec fn today_of(req: EvaluateRequest) -> Option<TransactionData> {
    match req.transaction {
        Some(t) => t.transaction_today,
        None => None,
    }
}

/// The rule engine's input: `customer.customer_id` when the request has a
/// customer, `transaction.transaction_today.{avg,count,sum}` when it has
/// totals (members in key order).
pub open spec fn zen_input_view(req: EvaluateRequest) -> JsonView {
    let c = match req.customer {
        Some(c) => seq![("customer"@, JsonView::Object(seq![("customer_id"@, int_view(c.customer_id))]))],
        None => Seq::empty(),
    };
    let t = match today_of(req) {
        Some(d) => seq![
            (
                "transaction"@,
                JsonView::Object(
                    seq![
                        (
                            "transaction_today"@,
                            JsonView::Object(
                                seq![
                                    ("avg"@, int_view(d.avg)),
                                    ("count"@, int_view(d.count)),
                                    ("sum"@, int_view(d.sum)),
                                ],
                            ),
                        ),
                    ],
                ),
            ),
        ],
        None => Seq::empty(),
    };
    JsonView::Object(c + t)
}

/// Builds the rule engine's input for a request.
pub fn build_zen_input(req: &EvaluateRequest) -> (r: JsonValue)
    ensures
        jview(r) == zen_input_view(*req),
{
    let mut root: Vec<(String, JsonValue)> = Vec::new();
    let ghost cpart = match req.customer {
        Some(c) => seq![("customer"@, JsonView::Object(seq![("customer_id"@, int_view(c.customer_id))]))],
        None => Seq::<(Seq<char>, JsonView)>::empty(),
    };
    match req.customer {
        Some(c) => {
            let mut cm: Vec<(String, JsonValue)> = Vec::new();
            cm.push((text("customer_id"), int_value(c.customer_id)));
            assert(pairs_view(cm@) =~= seq![("customer_id"@, int_view(c.customer_id))]);
            let co = object_of(cm);
            root.push((text("customer"), co));
        },
        None => {},
    }
    assert(pairs_view(root@) =~= cpart);
    let today = match req.transaction {
        Some(t) => t.transaction_today,
        None => None,
    };
    match today {
        Some(d) => {
            let mut inner: Vec<(String, JsonValue)> = Vec::new();
            inner.push((text("avg"), int_value(d.avg)));
            inner.push((text("count"), int_value(d.count)));
            inner.push((text("sum"), int_value(d.sum)));
            assert(pairs_view(inner@) =~= seq![
                ("avg"@, int_view(d.avg)),
                ("count"@, int_view(d.count)),
                ("sum"@, int_view(d.sum)),
            ]);
            let io = object_of(inner);
            let ghost iov = jview(io);
            let mut tm: Vec<(String, JsonValue)> = Vec::new();
            tm.push((text("transaction_today"), io));
            assert(pairs_view(tm@) =~= seq![("transaction_today"@, iov)]);
            let to = object_of(tm);
            let ghost before = root@;
            root.push((text("transaction"), to));
            assert(pairs_view(root@) =~= pairs_view(before).push(("transaction"@, jview(to))));
        },
        None => {},
    }
    let ghost rv = root@;
    let r = object_of(root);
    proof {
        let ms = match zen_input_view(*req) {
            JsonView::Object(ms) => ms,
            _ => Seq::empty(),
        };
        assert(pairs_view(rv) =~= ms);
    }
    r
}

/// A benefit read from a `benefit` object: its `type` (`"UNKNOWN"` when it
/// is not a string) and its `amount` as an `i64` (0 when it is not one;
/// with `u64_fallback`, a larger integer is cast to `i64`).
pub open spec fn benefit_from(b: JsonView, u64_fallback: bool) -> (Seq<char>, i64) {
    let t = match as_str(get(b, "type"@)) {
        Some(s) => s,
        None => "UNKNOWN"@,
    };
    let a: i64 = match as_i64(get(b, "amount"@)) {
        Some(x) => x,
        None => if u64_fallback {
            match as_u64(get(b, "amount"@)) {
                Some(u) => u as i64,
                None => 0,
            }
        } else {
            0
        },
    };
    (t, a)
}

/// The benefits of the elements of an array that have a `benefit` member.
pub open spec fn array_benefits(items: Seq<JsonView>) -> Seq<(Seq<char>, i64)>
    decreases items.len(),
{
    if items.len() == 0 {
        Seq::empty()
    } else {
        let rest = array_benefits(items.drop_first());
        match get(items[0], "benefit"@) {
            Some(b) => seq![benefit_from(b, false)] + rest,
            None => rest,
        }
    }
}

/// The benefits a rule's result grants: its `benefit` member; else those
/// of an array's elements; else nothing for `null`, and one `UNKNOWN`
/// benefit of 0 for any other value.
pub open spec fn rule_benefits(r: JsonView) -> Seq<(Seq<char>, i64)> {
    match get(r, "benefit"@) {
        Some(b) => seq![benefit_from(b, true)],
        None => match r {
            JsonView::Array(items) => array_benefits(items),
            JsonView::Null => Seq::empty(),
            _ => seq![("UNKNOWN"@, 0i64)],
        },
    }
}

fn benefit_of(b: &JsonValue, u64_fallback: bool) -> (r: Benefit)
    ensures
        r@ == benefit_from(jview(*b), u64_fallback),
{
    let type_key = vec!['t', 'y', 'p', 'e'];
    let amount_key = vec!['a', 'm', 'o', 'u', 'n', 't'];
    proof {
        reveal_strlit("type");
        reveal_strlit("amount");
        reveal_strlit("UNKNOWN");
        assert(type_key@ =~= "type"@);
        assert(amount_key@ =~= "amount"@);
    }
    let t = match value_as_str(get_member(b, &type_key)) {
        Some(s) => s,
        None => text("UNKNOWN"),
    };
    let am = get_member(b, &amount_key);
    let a: i64 = match value_as_i64(am) {
        Some(x) => x,
        None => if u64_fallback {
            match value_as_u64(am) {
                Some(u) => u as i64,
                None => 0,
            }
        } else {
            0
        },
    };
    Benefit { benefit_type: t, amount: a }
}

fn push_array_benefits(l: &JsonList, out: &mut Vec<Benefit>)
    ensures
        benefits_view(final(out)@) == benefits_view(old(out)@) + array_benefits(list_view(*l)),
    decreases l,
{
    match l {
        JsonList::Nil => {
            assert(benefits_view(out@) =~= benefits_view(old(out)@) + array_benefits(list_view(*l)));
        },
        JsonList::Cons(v, rest) => {
            let ghost items = list_view(*l);
            assert(items.drop_first() =~= list_view(**rest));
            assert(items[0] == jview(**v));
            let benefit_key = vec!['b', 'e', 'n', 'e', 'f', 'i', 't'];
            proof {
                reveal_strlit("benefit");
                assert(benefit_key@ =~= "benefit"@);
            }
            match get_member(&**v, &benefit_key) {
                Some(b) => {
                    let x = benefit_of(b, false);
                    out.push(x);
                },
                None => {},
            }
            push_array_benefits(&**rest, out);
            assert(benefits_view(out@) =~= benefits_view(old(out)@) + array_benefits(list_view(*l)));
        },
    }
}

/// The benefits that a rule's result grants.
pub fn benefits_from_result(result: &JsonValue) -> (r: Vec<Benefit>)
    ensures
        benefits_view(r@) == rule_benefits(jview(*result)),
{
    let benefit_key = vec!['b', 'e', 'n', 'e', 'f', 'i', 't'];
    proof {
        reveal_strlit("benefit");
        reveal_strlit("UNKNOWN");
        assert(benefit_key@ =~= "benefit"@);
    }
    let mut out: Vec<Benefit> = Vec::new();
    match get_member(result, &benefit_key) {
        Some(b) => {
            let x = benefit_of(b, true);
            out.push(x);
            assert(benefits_view(out@) =~= rule_benefits(jview(*result)));
        },
        None => {
            match result {
                JsonValue::Array(l) => {
                    push_array_benefits(l, &mut out);
                    assert(benefits_view(out@) =~= rule_benefits(jview(*result)));
                },
                JsonValue::Null => {
                    assert(benefits_view(out@) =~= rule_benefits(jview(*result)));
                },
                _ => {
                    out.push(Benefit { benefit_type: text("UNKNOWN"), amount: 0 });
                    assert(benefits_view(out@) =~= rule_benefits(jview(*result)));
                },
            }
        },
    }
    out
}

/// Records one rule's result: its benefits are added, and the rule counts
/// as matched when it granted any.
pub fn record_rule_result(benefits: &mut Vec<Benefit>, matched_rule_ids: &mut Vec<i64>, rule_id: i64, result: &JsonValue)
    ensures
        benefits_view(final(benefits)@) == benefits_view(old(benefits)@) + rule_benefits(jview(*result)),
        final(matched_rule_ids)@ == if rule_benefits(jview(*result)).len() > 0 {
            old(matched_rule_ids)@.push(rule_id)
        } else {
            old(matched_rule_ids)@
        },
{
    let mut found = benefits_from_result(result);
    let produced = found.len() > 0;
    let ghost fv = benefits_view(found@);
    let ghost before = benefits_view(benefits@);
    benefits.append(&mut found);
    assert(benefits_view(benefits@) =~= before + fv);
    if produced {
        matched_rule_ids.push(rule_id);
    }
}

/// The JSON of one benefit: `{"amount": .., "type": ..}`.
pub open spec fn benefit_json(b: (Seq<char>, i64)) -> JsonView {
    JsonView::Object(seq![("amount"@, int_view(b.1)), ("type"@, JsonView::Str(b.0))])
}

pub open spec fn benefits_json(bs: Seq<(Seq<char>, i64)>) -> JsonView {
    JsonView::Array(bs.map_values(|b: (Seq<char>, i64)| benefit_json(b)))
}

fn benefit_value(b: &Benefit) -> (r: JsonValue)
    ensures
        jview(r) == benefit_json(b@),
{
    let mut m: Vec<(String, JsonValue)> = Vec::new();
    m.push((text("amount"), int_value(b.amount)));
    m.push((text("type"), JsonValue::Str(b.benefit_type.clone())));
    let ghost mv = m@;
    let r = object_of(m);
    assert(pairs_view(mv) =~= seq![("amount"@, int_view(b.amount)), ("type"@, JsonView::Str(b.benefit_type@))]);
    r
}

fn benefits_value(bs: &Vec<Benefit>) -> (r: JsonValue)
    ensures
        jview(r) == benefits_json(benefits_view(bs@)),
{
    let mut items: Vec<JsonValue> = Vec::new();
    let mut i: usize = 0;
    while i < bs.len()
        invariant
            i <= bs@.len(),
            values_view(items@) == benefits_view(bs@).take(i as int).map_values(
                |b: (Seq<char>, i64)| benefit_json(b),
            ),
        decreases bs.len() - i,
    {
        let v = benefit_value(&bs[i]);
        assert(benefits_view(bs@)[i as int] == bs@[i as int]@);
        let ghost old_items = items@;
        items.push(v);
        assert(values_view(items@) =~= values_view(old_items).push(jview(v)));
        let ghost bv = benefits_view(bs@);
        assert(bv.take(i + 1).map_values(|b: (Seq<char>, i64)| benefit_json(b)) =~= bv.take(
            i as int,
        ).map_values(|b: (Seq<char>, i64)| benefit_json(b)).push(benefit_json(bv[i as int])));
        i = i + 1;
    }
    assert(benefits_view(bs@).take(bs@.len() as int) =~= benefits_view(bs@));
    array_of(items)
}

/// The reply's JSON: `{"benefits": [..], "evaluator_id": ..}`.
pub open spec fn result_json_view(evaluator_id: i64, bs: Seq<(Seq<char>, i64)>) -> JsonView {
    JsonView::Object(seq![("benefits"@, benefits_json(bs)), ("evaluator_id"@, int_view(evaluator_id))])
}

/// The reply's JSON for an evaluator and the benefits granted.
pub fn evaluate_result_json(evaluator_id: i64, benefits: &Vec<Benefit>) -> (r: JsonValue)
    ensures
        jview(r) == result_json_view(evaluator_id, benefits_view(benefits@)),
{
    let mut m: Vec<(String, JsonValue)> = Vec::new();
    m.push((text("benefits"), benefits_value(benefits)));
    m.push((text("evaluator_id"), int_value(evaluator_id)));
    let ghost mv = m@;
    let r = object_of(m);
    assert(pairs_view(mv) =~= seq![
        ("benefits"@, benefits_json(benefits_view(benefits@))),
        ("evaluator_id"@, int_view(evaluator_id)),
    ]);
    r
}

/// The value stored for one customer: `{"benefits": [..]}`.
pub fn customer_benefits_json(benefits: &Vec<Benefit>) -> (r: JsonValue)
    ensures
        jview(r) == JsonView::Object(seq![("benefits"@, benefits_json(benefits_view(benefits@)))]),
{
    let mut m: Vec<(String, JsonValue)> = Vec::new();
    m.push((text("benefits"), benefits_value(benefits)));
    let ghost mv = m@;
    let r = object_of(m);
    assert(pairs_view(mv) =~= seq![("benefits"@, benefits_json(benefits_view(benefits@)))]);
    r
}

/// What SHA-256 gives for some bytes (32 bytes).
pub uninterp spec fn sha256_digest(b: Seq<u8>) -> Seq<u8>;

/// `Sha256::digest` of `sha2`: the 32-byte digest of the bytes.
#[verifier::external_body]
fn sha256(data: &[u8]) -> (r: Vec<u8>)
    ensures
        r@ == sha256_digest(data@),
        r@.len() == 32,
{
    <sha2::Sha256 as Digest>::digest(data).to_vec()
}

/// The lowercase hexadecimal digit of a value below 16.
pub open spec fn hex_digit(n: int) -> char {
    if n < 10 {
        ((n + 48) as u32) as char
    } else {
        ((n + 87) as u32) as char
    }
}

/// Bytes as lowercase hexadecimal, two digits each (`{:x}` of a digest).
pub open spec fn lower_hex(b: Seq<u8>) -> Seq<char>
    decreases b.len(),
{
    if b.len() == 0 {
        Seq::empty()
    } else {
        lower_hex(b.drop_last()).push(hex_digit(b.last() as int / 16)).push(hex_digit(b.last() as int % 16))
    }
}

fn hex_char(n: u8) -> (c: char)
    requires
        n < 16,
    ensures
        c == hex_digit(n as int),
{
    let cs = ['0', '1', '2', '3', '4', '5', '6', '7', '8', '9', 'a', 'b', 'c', 'd', 'e', 'f'];
    let c = cs[n as usize];
    proof {
        assert(cs@[n as int] == c);
        if n < 10 {
            assert(c == ((n + 48) as u32) as char);
        } else {
            assert(c == ((n + 87) as u32) as char);
        }
    }
    c
}

/// Writes bytes as lowercase hexadecimal.
pub fn to_lower_hex(b: &[u8]) -> (r: String)
    ensures
        r@ == lower_hex(b@),
{
    let mut r = String::new();
    let mut i: usize = 0;
    while i < b.len()
        invariant
            i <= b@.len(),
            r@ == lower_hex(b@.take(i as int)),
        decreases b.len() - i,
    {
        assert(b@.take(i + 1).drop_last() =~= b@.take(i as int));
        let x = b[i];
        push_char(&mut r, hex_char(x / 16));
        push_char(&mut r, hex_char(x % 16));
        i = i + 1;
    }
    assert(b@.take(b@.len() as int) =~= b@);
    r
}

/// The text that is hashed: `"{customer_id}-{key_id}-{today}"`.
pub open spec fn idempotency_text(customer_id: i64, key_id: u64, today: Seq<char>) -> Seq<char> {
    decimal_i64(customer_id) + seq!['-'] + decimal(key_id as nat) + seq!['-'] + today
}

/// The key that makes storing a benefit idempotent: the SHA-256 of
/// `"{customer_id}-{key_id}-{today}"`, in lowercase hexadecimal.
pub fn idempotency_key(customer_id: i64, key_id: u64, today: &str) -> (r: String)
    ensures
        r@ == lower_hex(sha256_digest(encode_utf8(idempotency_text(customer_id, key_id, today@)))),
        r@.len() == 64,
{
    let mut raw = String::new();
    push_decimal_i64(&mut raw, customer_id);
    push_char(&mut raw, '-');
    push_decimal(&mut raw, key_id);
    push_char(&mut raw, '-');
    push_str(&mut raw, today);
    assert(raw@ =~= idempotency_text(customer_id, key_id, today@));
    let bytes = utf8_bytes(raw.as_str());
    let digest = sha256(bytes.as_slice());
    let r = to_lower_hex(digest.as_slice());
    proof {
        lemma_lower_hex_len(digest@);
    }
    r
}

proof fn lemma_lower_hex_len(b: Seq<u8>)
    ensures
        lower_hex(b).len() == 2 * b.len(),
    decreases b.len(),
{
    if b.len() > 0 {
        lemma_lower_hex_len(b.drop_last());
    }
}

/// Why an evaluation is refused.
#[derive(Debug, Clone, PartialEq, Eq)]
pub enum EvaluateError {
    /// The request is missing something; the message says what.
    InvalidArgument(String),
}

/// A request must name its evaluator.
pub fn validate_request(req: &EvaluateRequest) -> (r: Result<(), EvaluateError>)
    ensures
        r is Ok <==> req.evaluator_id != 0,
        r matches Err(EvaluateError::InvalidArgument(m)) ==> m@ == "evaluator_id is required"@,
{
    if req.evaluator_id == 0 {
        Err(EvaluateError::InvalidArgument(text("evaluator_id is required")))
    } else {
        Ok(())
    }
}

/// A benefit row to store.
#[derive(Debug, Clone, PartialEq, Eq)]
pub struct BenefitInsert {
    /// The customer (0 for a benefit without one).
    pub customer_id: i64,
    pub idempotency_key: String,
    /// Whether the stored value is the whole reply (no customer) rather than
    /// the customer's benefits.
    pub whole_result: bool,
}

/// No row for customer 0 is stored when the request has transaction
/// totals: they belong to a customer that is missing.
pub fn skips_zero_customer(has_transaction: bool, customer_missing: bool) -> (r: bool)
    ensures
        r == (has_transaction && customer_missing),
{
    has_transaction && customer_missing
}

/// Which benefit row an evaluation stores, as customer, idempotency key and
/// whether the whole reply is stored: the customer's benefits when the
/// request has a customer other than 0 (even when no rule matched); a row
/// for customer 0 holding the whole reply when there is neither a customer
/// nor transaction totals and some benefit was granted; otherwise none. The
/// key hashes customer, evaluator and day.
pub open spec fn insert_plan(req: EvaluateRequest, benefits_empty: bool, today: Seq<char>) -> Option<
    (i64, Seq<char>, bool),
> {
    match req.customer {
        Some(c) => if c.customer_id == 0 {
            None
        } else {
            Some(
                (
                    c.customer_id,
                    lower_hex(sha256_digest(encode_utf8(idempotency_text(c.customer_id, req.evaluator_id as u64, today)))),
                    false,
                ),
            )
        },
        None => if !benefits_empty && today_of(req) is None {
            Some((0, lower_hex(sha256_digest(encode_utf8(idempotency_text(0, req.evaluator_id as u64, today)))), true))
        } else {
            None
        },
    }
}

/// Plans the benefit row an evaluation stores (see [`insert_plan`]).
pub fn plan_benefit_insert(req: &EvaluateRequest, benefits_empty: bool, today: &str) -> (r: Option<BenefitInsert>)
    ensures
        match r {
            Some(p) => insert_plan(*req, benefits_empty, today@) == Some(
                (p.customer_id, p.idempotency_key@, p.whole_result),
            ),
            None => insert_plan(*req, benefits_empty, today@) is None,
        },
{
    match req.customer {
        Some(c) => {
            if c.customer_id == 0 {
                None
            } else {
                let key = idempotency_key(c.customer_id, req.evaluator_id as u64, today);
                Some(BenefitInsert { customer_id: c.customer_id, idempotency_key: key, whole_result: false })
            }
        },
        None => {
            let has_today = match req.transaction {
                Some(t) => t.transaction_today.is_some(),
                None => false,
            };
            if !benefits_empty && !skips_zero_customer(has_today, true) {
                let key = idempotency_key(0, req.evaluator_id as u64, today);
                Some(BenefitInsert { customer_id: 0, idempotency_key: key, whole_result: true })
            } else {
                None
            }
        },
    }
}

/// `today` without its dashes (`str::replace("-", "")`).
pub open spec fn without_dashes(s: Seq<char>) -> Seq<char>
    decreases s.len(),
{
    if s.len() == 0 {
        Seq::empty()
    } else if s.last() == '-' {
        without_dashes(s.drop_last())
    } else {
        without_dashes(s.drop_last()).push(s.last())
    }
}

/// The file that a day's stored benefits are appended to:
/// `data/output/benefit{YYYYMMDD}.txt`.
pub fn benefit_file_path(today: &str) -> (r: String)
    ensures
        r@ == "data/output/benefit"@ + without_dashes(today@) + ".txt"@,
{
    let mut r = text("data/output/benefit");
    let v = chars_of(today);
    let ghost start = r@;
    let mut i: usize = 0;
    while i < v.len()
        invariant
            i <= v@.len(),
            r@ == start + without_dashes(v@.take(i as int)),
        decreases v.len() - i,
    {
        assert(v@.take(i + 1).drop_last() =~= v@.take(i as int));
        if v[i] != '-' {
            push_char(&mut r, v[i]);
        }
        assert(r@ =~= start + without_dashes(v@.take(i + 1)));
        i = i + 1;
    }
    assert(v@.take(v@.len() as int) =~= v@);
    push_str(&mut r, ".txt");
    r
}

/// The line appended for a stored benefit:
/// `{"customer_id":..,"job_id":..,"idempotency_key":"..","value":..}`.
pub open spec fn benefit_line(customer_id: i64, job_id: u64, key: Seq<char>, value_json: Seq<char>) -> Seq<char> {
    "{\"customer_id\":"@ + decimal_i64(customer_id) + ",\"job_id\":"@ + decimal(job_id as nat)
        + ",\"idempotency_key\":\""@ + key + "\",\"value\":"@ + value_json + "}"@
}

/// Formats the line appended for a stored benefit.
pub fn benefit_file_line(customer_id: i64, job_id: u64, key: &str, value_json: &str) -> (r: String)
    ensures
        r@ == benefit_line(customer_id, job_id, key@, value_json@),
{
    let mut r = text("{\"customer_id\":");
    push_decimal_i64(&mut r, customer_id);
    push_str(&mut r, ",\"job_id\":");
    push_decimal(&mut r, job_id);
    push_str(&mut r, ",\"idempotency_key\":\"");
    push_str(&mut r, key);
    push_str(&mut r, "\",\"value\":");
    push_str(&mut r, value_json);
    push_str(&mut r, "}");
    assert(r@ =~= benefit_line(customer_id, job_id, key@, value_json@));
    r
}

/// What is appended to the day's benefit file: a newline first when the
/// file already has content, then the line.
pub fn benefit_append_content(existing_len: Option<u64>, line: &str) -> (r: String)
    ensures
        r@ == (match existing_len {
            Some(n) => if n > 0 {
                seq!['\n']
            } else {
                Seq::empty()
            },
            None => Seq::empty(),
        }) + line@,
{
    let needs_newline = match existing_len {
        Some(n) => n > 0,
        None => false,
    };
    let mut r = String::new();
    if needs_newline {
        push_char(&mut r, '\n');
    }
    push_str(&mut r, line);
    assert(r@ =~= (match existing_len {
        Some(n) => if n > 0 {
            seq!['\n']
        } else {
            Seq::<char>::empty()
        },
        None => Seq::<char>::empty(),
    }) + line@);
    r
}

/// How evaluating one rule went.
pub enum RuleOutcome {
    /// Its content is not a decision graph.
    InvalidContent,
    /// The engine could not build the decision (its error, as text).
    CreateFailed(String),
    /// The engine failed to evaluate (its error, as text).
    EvaluateFailed(String),
    /// The engine's result.
    Evaluated(JsonValue),
}

/// Takes one rule's outcome into the benefits and matched rules so far: a
/// rule whose content is not a decision graph is skipped; an engine failure
/// ends the evaluation with its message; a result is recorded as
/// [`record_rule_result`] does.
pub fn apply_rule_outcome(
    benefits: &mut Vec<Benefit>,
    matched_rule_ids: &mut Vec<i64>,
    rule_id: i64,
    outcome: &RuleOutcome,
) -> (r: Result<(), String>)
    ensures
        match *outcome {
            RuleOutcome::InvalidContent => r is Ok && final(benefits)@ == old(benefits)@ && final(matched_rule_ids)@
                == old(matched_rule_ids)@,
            RuleOutcome::CreateFailed(e) => r matches Err(m) && m@ == "create_decision failed for rule "@
                + decimal_i64(rule_id) + ": "@ + e@,
            RuleOutcome::EvaluateFailed(e) => r matches Err(m) && m@ == "evaluate failed for rule "@ + decimal_i64(
                rule_id,
            ) + ": "@ + e@,
            RuleOutcome::Evaluated(j) => r is Ok && benefits_view(final(benefits)@) == benefits_view(old(benefits)@)
                + rule_benefits(jview(j)) && final(matched_rule_ids)@ == if rule_benefits(jview(j)).len() > 0 {
                old(matched_rule_ids)@.push(rule_id)
            } else {
                old(matched_rule_ids)@
            },
        },
{
    match outcome {
        RuleOutcome::InvalidContent => Ok(()),
        RuleOutcome::CreateFailed(e) => {
            let mut m = text("create_decision failed for rule ");
            push_decimal_i64(&mut m, rule_id);
            push_str(&mut m, ": ");
            push_str(&mut m, e.as_str());
            Err(m)
        },
        RuleOutcome::EvaluateFailed(e) => {
            let mut m = text("evaluate failed for rule ");
            push_decimal_i64(&mut m, rule_id);
            push_str(&mut m, ": ");
            push_str(&mut m, e.as_str());
            Err(m)
        },
        RuleOutcome::Evaluated(j) => {
            record_rule_result(benefits, matched_rule_ids, rule_id, j);
            Ok(())
        },
    }
}

/// The message when the evaluator's rules cannot be read.
pub fn fetch_rules_error(evaluator_id: i64, e: &str) -> (r: String)
    ensures
        r@ == "fetch rules failed for evaluator "@ + decimal_i64(evaluator_id) + ": "@ + e@,
{
    let mut m = text("fetch rules failed for evaluator ");
    push_decimal_i64(&mut m, evaluator_id);
    push_str(&mut m, ": ");
    push_str(&mut m, e);
    m
}

/// Whether a database error says the key is already stored.
pub open spec fn is_duplicate_key(msg: Seq<char>) -> bool {
    has_part(msg, "Duplicate entry"@) || has_part(msg, "1062"@) || has_part(msg, "UNIQUE"@)
}

/// What follows storing a benefit row.
pub enum AfterStore {
    /// The row was stored: append this line to this file.
    Append { path: String, line: String },
    /// The key was stored before: nothing more is done.
    Duplicate,
    /// Storing failed otherwise: nothing more is done.
    Failed,
}

/// After storing a benefit row: a stored row gets its line appended to
/// the day's benefit file; a refusal because the key is already there is
/// skipped as idempotent; any other failure appends nothing.
pub fn after_benefit_store(
    stored: &Result<(), String>,
    today: &str,
    customer_id: i64,
    job_id: u64,
    key: &str,
    value_json: &str,
) -> (r: AfterStore)
    ensures
        match *stored {
            Ok(()) => r matches AfterStore::Append { path, line } && path@ == "data/output/benefit"@
                + without_dashes(today@) + ".txt"@ && line@ == benefit_line(customer_id, job_id, key@, value_json@),
            Err(m) => if is_duplicate_key(m@) {
                r is Duplicate
            } else {
                r is Failed
            },
        },
{
    match stored {
        Ok(()) => AfterStore::Append {
            path: benefit_file_path(today),
            line: benefit_file_line(customer_id, job_id, key, value_json),
        },
        Err(m) => {
            if contains_text(m.as_str(), "Duplicate entry") || contains_text(m.as_str(), "1062") || contains_text(
                m.as_str(),
                "UNIQUE",
            ) {
                AfterStore::Duplicate
            } else {
                AfterStore::Failed
            }
        },
    }
}

/// A setting read as a `u64`, when it is present and one.
pub open spec fn setting_u64(v: Option<Seq<char>>) -> Option<u64> {
    match v {
        Some(s) => parse_u64(s),
        None => None,
    }
}

/// Reads a setting as a `u64`.
pub fn parse_setting(v: Option<&str>) -> (r: Option<u64>)
    ensures
        r == setting_u64(match v {
            Some(s) => Some(s@),
            None => None,
        }),
{
    match v {
        Some(s) => {
            let c = chars_of(s);
            assert(c@.subrange(0, c@.len() as int) =~= c@);
            parse_u64_chars(&c, 0, c.len())
        },
        None => None,
    }
}

/// The evaluator's time limit in milliseconds: `GRPC_TIMEOUT_MS` when it is
/// a number, else `API_TIMEOUT_MS` when it is one, else 200.
pub fn api_timeout_ms(grpc_timeout: Option<&str>, api_timeout: Option<&str>) -> (r: u64)
    ensures
        r == match setting_u64(match grpc_timeout {
            Some(s) => Some(s@),
            None => None,
        }) {
            Some(x) => x,
            None => match setting_u64(match api_timeout {
                Some(s) => Some(s@),
                None => None,
            }) {
                Some(y) => y,
                None => 200,
            },
        },
{
    match parse_setting(grpc_timeout) {
        Some(x) => x,
        None => match parse_setting(api_timeout) {
            Some(y) => y,
            None => 200,
        },
    }
}

/// The description stored with a benefit row.
pub fn benefit_description(count: u64, customer_id: Option<i64>) -> (r: String)
    ensures
        r@ == match customer_id {
            Some(c) => "evaluated "@ + decimal(count as nat) + " benefits for customer "@ + decimal_i64(c),
            None => "evaluated "@ + decimal(count as nat) + " benefits (no customer)"@,
        },
{
    let mut r = text("evaluated ");
    push_decimal(&mut r, count);
    match customer_id {
        Some(c) => {
            push_str(&mut r, " benefits for customer ");
            push_decimal_i64(&mut r, c);
        },
        None => {
            push_str(&mut r, " benefits (no customer)");
        },
    }
    r
}


/// Storing a benefit is idempotent per customer, evaluator and day: two
/// evaluations that differ only in their job plan the same row under the
/// same key, whatever job they came from.
pub proof fn law_insert_plan_ignores_job(a: EvaluateRequest, b: EvaluateRequest, benefits_empty: bool, today: Seq<char>)
    requires
        a.evaluator_id == b.evaluator_id,
        a.customer == b.customer,
        a.transaction == b.transaction,
    ensures
        insert_plan(a, benefits_empty, today) == insert_plan(b, benefits_empty, today),
{
}

/// The object of one granted benefit: its amount and its type.
pub open spec fn granted_object(b: (Seq<char>, i64)) -> JsonView {
    JsonView::Object(seq![("amount"@, int_view(b.1)), ("type"@, JsonView::Str(b.0))])
}

/// Law: the reply's JSON and the value stored for a customer list every
/// granted benefit, in order, one object per benefit with its amount and
/// type; the reply also names the evaluator.
pub proof fn law_reply_lists_every_benefit(evaluator_id: i64, bs: Seq<(Seq<char>, i64)>)
    ensures
        ({
            let listed = JsonView::Array(Seq::new(bs.len(), |i: int| granted_object(bs[i])));
            let reply = result_json_view(evaluator_id, bs);
            let stored = JsonView::Object(seq![("benefits"@, benefits_json(bs))]);
            &&& get(reply, "benefits"@) == Some(listed)
            &&& get(reply, "evaluator_id"@) == Some(int_view(evaluator_id))
            &&& get(stored, "benefits"@) == Some(listed)
        }),
{
    let listed = JsonView::Array(Seq::new(bs.len(), |i: int| granted_object(bs[i])));
    reveal_strlit("benefits");
    reveal_strlit("evaluator_id");
    assert(benefits_json(bs) == listed) by {
        assert(bs.map_values(|b: (Seq<char>, i64)| benefit_json(b)) =~= Seq::new(
            bs.len(),
            |i: int| granted_object(bs[i]),
        ));
    }
    let ms = seq![("benefits"@, benefits_json(bs)), ("evaluator_id"@, int_view(evaluator_id))];
    assert(ms.drop_first() =~= seq![("evaluator_id"@, int_view(evaluator_id))]);
    assert("benefits"@ != "evaluator_id"@) by {
        assert("benefits"@[0] != "evaluator_id"@[0]);
    }
    assert(result_json_view(evaluator_id, bs) == JsonView::Object(ms));
    assert(ms[0].0 == "benefits"@);
    assert(member(ms, "benefits"@) == Some(benefits_json(bs)));
    assert(ms.drop_first()[0].0 == "evaluator_id"@);
    assert(member(ms.drop_first(), "evaluator_id"@) == Some(int_view(evaluator_id)));
    assert(member(ms, "evaluator_id"@) == Some(int_view(evaluator_id)));
    let st = seq![("benefits"@, benefits_json(bs))];
    assert(st[0].0 == "benefits"@);
    assert(member(st, "benefits"@) == Some(benefits_json(bs)));
}

/// Law: the benefits are read one by one, in order, as their type and
/// amount.
pub proof fn law_benefits_read_in_order(bs: Seq<Benefit>)
    ensures
        benefits_view(bs).len() == bs.len(),
        forall|i: int| 0 <= i < bs.len() ==> #[trigger] benefits_view(bs)[i] == (bs[i].benefit_type@, bs[i].amount),
{
}

} // verus!
