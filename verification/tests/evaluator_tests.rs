use benefit_engine::evaluator::{after_benefit_store, apply_rule_outcome, fetch_rules_error, AfterStore, RuleOutcome};
use benefit_engine::evaluator::{
    api_timeout_ms, benefit_append_content, benefit_description, benefit_file_line, benefit_file_path,
    benefits_from_result, build_zen_input, customer_benefits_json, evaluate_result_json, idempotency_key,
    plan_benefit_insert, record_rule_result, skips_zero_customer, to_lower_hex, validate_request, Benefit,
    Customer, EvaluateError, EvaluateRequest, Transaction, TransactionData,
};
use benefit_engine::json::{JsonList, JsonMembers, JsonNumber, JsonValue};
use sha2::{Digest, Sha256};

fn field<'a>(v: &'a JsonValue, key: &str) -> Option<&'a JsonValue> {
    match v {
        JsonValue::Object(m) => {
            let mut cur = m;
            loop {
                match cur {
                    JsonMembers::Nil => return None,
                    JsonMembers::Cons(k, val, rest) => {
                        if k == key {
                            return Some(&**val);
                        }
                        cur = &**rest;
                    }
                }
            }
        }
        _ => None,
    }
}

fn path<'a>(v: &'a JsonValue, keys: &[&str]) -> Option<&'a JsonValue> {
    let mut cur = v;
    for k in keys {
        cur = field(cur, k)?;
    }
    Some(cur)
}

fn int_of(v: Option<&JsonValue>) -> Option<i64> {
    match v {
        Some(JsonValue::Number(JsonNumber::PosInt(n))) => Some(*n as i64),
        Some(JsonValue::Number(JsonNumber::NegInt(n))) => Some(*n),
        _ => None,
    }
}

fn members(v: &JsonValue) -> usize {
    match v {
        JsonValue::Object(m) => {
            let mut n = 0;
            let mut cur = m;
            while let JsonMembers::Cons(_, _, rest) = cur {
                n += 1;
                cur = &**rest;
            }
            n
        }
        _ => panic!("not an object"),
    }
}

fn items(v: &JsonValue) -> Vec<&JsonValue> {
    match v {
        JsonValue::Array(l) => {
            let mut out = Vec::new();
            let mut cur = l;
            while let JsonList::Cons(x, rest) = cur {
                out.push(&**x);
                cur = &**rest;
            }
            out
        }
        _ => panic!("not an array"),
    }
}

fn obj(ms: Vec<(&str, JsonValue)>) -> JsonValue {
    let mut acc = JsonMembers::Nil;
    for (k, v) in ms.into_iter().rev() {
        acc = JsonMembers::Cons(k.to_string(), Box::new(v), Box::new(acc));
    }
    JsonValue::Object(acc)
}

fn arr(xs: Vec<JsonValue>) -> JsonValue {
    let mut acc = JsonList::Nil;
    for x in xs.into_iter().rev() {
        acc = JsonList::Cons(Box::new(x), Box::new(acc));
    }
    JsonValue::Array(acc)
}

fn num(n: u64) -> JsonValue {
    JsonValue::Number(JsonNumber::PosInt(n))
}

fn sha_hex(s: &str) -> String {
    let mut hasher = Sha256::new();
    hasher.update(s.as_bytes());
    format!("{:x}", hasher.finalize())
}

fn make_req() -> EvaluateRequest {
    EvaluateRequest {
        evaluator_id: 1,
        customer: Some(Customer { customer_id: 42 }),
        transaction: Some(Transaction {
            transaction_today: Some(TransactionData { sum: 5000000000, avg: 5000000001, count: 4 }),
        }),
        job_id: 123,
    }
}

#[test]
fn build_zen_input_maps_transaction_and_customer() {
    let req = make_req();
    let input = build_zen_input(&req);
    assert_eq!(int_of(path(&input, &["transaction", "transaction_today", "sum"])), Some(5000000000i64));
    assert_eq!(int_of(path(&input, &["transaction", "transaction_today", "count"])), Some(4));
    assert_eq!(int_of(path(&input, &["customer", "customer_id"])), Some(42));
}

#[test]
fn build_zen_input_empty() {
    let req = EvaluateRequest { evaluator_id: 1, customer: None, transaction: None, job_id: 0 };
    let input = build_zen_input(&req);
    assert_eq!(members(&input), 0);
}

#[test]
fn build_zen_input_per_customer_array() {
    let tx = Transaction {
        transaction_today: Some(TransactionData { sum: 2500001000, avg: 357143000, count: 7 }),
    };
    let reqs: Vec<EvaluateRequest> = vec![1, 2, 3]
        .into_iter()
        .map(|cid| EvaluateRequest {
            evaluator_id: 1,
            customer: Some(Customer { customer_id: cid }),
            transaction: Some(tx.clone()),
            job_id: 123,
        })
        .collect();
    assert_eq!(reqs.len(), 3);
    for (i, req) in reqs.iter().enumerate() {
        let input = build_zen_input(req);
        assert_eq!(int_of(path(&input, &["customer", "customer_id"])), Some((i + 1) as i64));
        assert_eq!(int_of(path(&input, &["transaction", "transaction_today", "sum"])), Some(2500001000i64));
        assert_eq!(int_of(path(&input, &["transaction", "transaction_today", "count"])), Some(7));
        assert_eq!(int_of(path(&input, &["transaction", "transaction_today", "avg"])), Some(357143000i64));
    }
    let array: Vec<JsonValue> = reqs.iter().map(build_zen_input).collect();
    assert_eq!(array.len(), 3);
    assert_eq!(int_of(path(&array[0], &["customer", "customer_id"])), Some(1));
    assert_eq!(int_of(path(&array[1], &["customer", "customer_id"])), Some(2));
    assert_eq!(int_of(path(&array[2], &["customer", "customer_id"])), Some(3));
}

#[test]
fn build_zen_input_negative_customer_is_negative_number() {
    let req = EvaluateRequest { evaluator_id: 1, customer: Some(Customer { customer_id: -5 }), transaction: None, job_id: 0 };
    let input = build_zen_input(&req);
    assert_eq!(members(&input), 1);
    assert!(matches!(path(&input, &["customer", "customer_id"]), Some(JsonValue::Number(JsonNumber::NegInt(-5)))));
}

#[test]
fn idempotency_key_is_sha256_of_customer_job_date() {
    let key = idempotency_key(42, 123, "2026-09-20");
    assert_eq!(key.len(), 64);
    assert_eq!(key, idempotency_key(42, 123, "2026-09-20"));
    assert_ne!(key, idempotency_key(42, 124, "2026-09-20"));
    assert_ne!(key, idempotency_key(43, 123, "2026-09-20"));
    assert_eq!(key, sha_hex("42-123-2026-09-20"));
}

#[test]
fn idempotency_uses_evaluator_id_not_job_id() {
    let today = "2026-09-20";
    let cid = 1;
    let evaluator_id = 1u64;
    let job_a = 100u64;
    let job_b = 101u64;
    let key_evaluator = idempotency_key(cid, evaluator_id, today);
    let key_job_a = idempotency_key(cid, job_a, today);
    let key_job_b = idempotency_key(cid, job_b, today);
    assert_eq!(key_evaluator, idempotency_key(cid, evaluator_id, today));
    assert_ne!(key_job_a, key_job_b);
    assert_ne!(key_evaluator, key_job_a);
    assert_eq!(key_evaluator, sha_hex(&format!("{}-{}-{}", cid, evaluator_id, today)));
}

#[test]
fn idempotency_key_of_negative_customer() {
    assert_eq!(idempotency_key(-7, 3, "2026-01-02"), sha_hex("-7-3-2026-01-02"));
}

#[test]
fn no_zero_customer_when_transaction_exists() {
    let req_with_tx_no_cust = EvaluateRequest {
        evaluator_id: 1,
        customer: None,
        transaction: Some(Transaction {
            transaction_today: Some(TransactionData { sum: 1000, avg: 500, count: 2 }),
        }),
        job_id: 555,
    };
    let input = build_zen_input(&req_with_tx_no_cust);
    assert_eq!(int_of(path(&input, &["transaction", "transaction_today", "sum"])), Some(1000));
    assert!(field(&input, "customer").is_none());
    let ik_zero = idempotency_key(0, 555, "2026-09-20");
    let ik_real = idempotency_key(101, 555, "2026-09-20");
    assert_ne!(ik_zero, ik_real);
    assert_eq!(ik_zero.len(), 64);
}

#[test]
fn to_lower_hex_writes_two_digits_per_byte() {
    assert_eq!(to_lower_hex(&[0x00, 0x0f, 0xa0, 0xff]), "000fa0ff");
    assert_eq!(to_lower_hex(&[]), "");
}

#[test]
fn plan_insert_for_customer_uses_evaluator_key() {
    let req = make_req();
    let p = plan_benefit_insert(&req, true, "2026-09-20").unwrap();
    assert_eq!(p.customer_id, 42);
    assert!(!p.whole_result);
    assert_eq!(p.idempotency_key, sha_hex("42-1-2026-09-20"));
}

#[test]
fn plan_insert_skips_customer_zero() {
    let mut req = make_req();
    req.customer = Some(Customer { customer_id: 0 });
    assert!(plan_benefit_insert(&req, false, "2026-09-20").is_none());
}

#[test]
fn plan_insert_without_customer_or_totals_stores_whole_result() {
    let req = EvaluateRequest { evaluator_id: 9, customer: None, transaction: None, job_id: 1 };
    let p = plan_benefit_insert(&req, false, "2026-09-20").unwrap();
    assert_eq!(p.customer_id, 0);
    assert!(p.whole_result);
    assert_eq!(p.idempotency_key, sha_hex("0-9-2026-09-20"));
    assert!(plan_benefit_insert(&req, true, "2026-09-20").is_none());
}

#[test]
fn plan_insert_without_customer_but_with_totals_stores_nothing() {
    let mut req = make_req();
    req.customer = None;
    assert!(plan_benefit_insert(&req, false, "2026-09-20").is_none());
    assert!(skips_zero_customer(true, true));
    assert!(!skips_zero_customer(false, true));
    assert!(!skips_zero_customer(true, false));
}

#[test]
fn validate_request_requires_evaluator() {
    let mut req = make_req();
    assert_eq!(validate_request(&req), Ok(()));
    req.evaluator_id = 0;
    assert_eq!(
        validate_request(&req),
        Err(EvaluateError::InvalidArgument("evaluator_id is required".to_string()))
    );
}

#[test]
fn benefits_from_object_result() {
    let result = obj(vec![(
        "benefit",
        obj(vec![("type", JsonValue::Str("CASHBACK".to_string())), ("amount", num(10000000))]),
    )]);
    let bs = benefits_from_result(&result);
    assert_eq!(bs, vec![Benefit { benefit_type: "CASHBACK".to_string(), amount: 10000000 }]);
}

#[test]
fn benefits_from_array_and_other_results() {
    let result = arr(vec![
        obj(vec![("benefit", obj(vec![("type", JsonValue::Str("A".to_string())), ("amount", num(1))]))]),
        obj(vec![("other", num(3))]),
        obj(vec![("benefit", obj(vec![("amount", num(2))]))]),
    ]);
    let bs = benefits_from_result(&result);
    assert_eq!(bs.len(), 2);
    assert_eq!(bs[0], Benefit { benefit_type: "A".to_string(), amount: 1 });
    assert_eq!(bs[1].amount, 2);
    assert!(benefits_from_result(&JsonValue::Null).is_empty());
    let unknown = benefits_from_result(&obj(vec![("x", num(1))]));
    assert_eq!(unknown, vec![Benefit { benefit_type: "UNKNOWN".to_string(), amount: 0 }]);
}

#[test]
fn record_rule_result_counts_matching_rules() {
    let mut benefits = Vec::new();
    let mut matched = Vec::new();
    let granting = obj(vec![(
        "benefit",
        obj(vec![("type", JsonValue::Str("CASHBACK".to_string())), ("amount", num(5))]),
    )]);
    record_rule_result(&mut benefits, &mut matched, 7, &granting);
    record_rule_result(&mut benefits, &mut matched, 8, &JsonValue::Null);
    assert_eq!(matched, vec![7]);
    assert_eq!(benefits.len(), 1);
}

#[test]
fn reply_json_holds_benefits_and_evaluator() {
    let bs = vec![Benefit { benefit_type: "CASHBACK".to_string(), amount: 5 }];
    let r = evaluate_result_json(3, &bs);
    assert_eq!(int_of(field(&r, "evaluator_id")), Some(3));
    let list = items(field(&r, "benefits").unwrap());
    assert_eq!(list.len(), 1);
    assert_eq!(int_of(field(list[0], "amount")), Some(5));
    assert!(matches!(field(list[0], "type"), Some(JsonValue::Str(s)) if s == "CASHBACK"));
    let c = customer_benefits_json(&bs);
    assert_eq!(members(&c), 1);
    assert_eq!(items(field(&c, "benefits").unwrap()).len(), 1);
}

#[test]
fn benefit_file_path_drops_dashes() {
    assert_eq!(benefit_file_path("2026-09-20"), "data/output/benefit20260920.txt");
}

#[test]
fn benefit_file_line_format() {
    assert_eq!(
        benefit_file_line(42, 123, "abc", "{\"benefits\":[]}"),
        "{\"customer_id\":42,\"job_id\":123,\"idempotency_key\":\"abc\",\"value\":{\"benefits\":[]}}"
    );
}

#[test]
fn benefit_file_append_newline_handling() {
    assert_eq!(benefit_append_content(None, "line1"), "line1");
    assert_eq!(benefit_append_content(Some(0), "line1"), "line1");
    assert_eq!(benefit_append_content(Some(5), "line2"), "\nline2");
    let mut content = String::new();
    for line in ["line1", "line2", "line3"] {
        let existing = if content.is_empty() { None } else { Some(content.len() as u64) };
        content.push_str(&benefit_append_content(existing, line));
    }
    assert_eq!(content, "line1\nline2\nline3");
}

#[test]
fn mod_api_timeout_default_is_50ms() {
    assert_eq!(api_timeout_ms(None, None), 200);
}

#[test]
fn mod_api_timeout_respects_env() {
    assert_eq!(api_timeout_ms(None, Some("88")), 88);
    assert_eq!(api_timeout_ms(None, None), 200);
    assert_eq!(api_timeout_ms(Some("99"), Some("88")), 99);
    assert_eq!(api_timeout_ms(Some("x"), Some("88")), 88);
    assert_eq!(api_timeout_ms(Some("x"), Some("y")), 200);
}

#[test]
fn benefit_description_text() {
    assert_eq!(benefit_description(2, Some(42)), "evaluated 2 benefits for customer 42");
    assert_eq!(benefit_description(1, None), "evaluated 1 benefits (no customer)");
}

#[test]
fn insert_plan_same_for_any_job() {
    let a = make_req();
    let mut b = make_req();
    b.job_id = 999;
    let pa = plan_benefit_insert(&a, false, "2026-09-20").unwrap();
    let pb = plan_benefit_insert(&b, false, "2026-09-20").unwrap();
    assert_eq!(pa, pb);
}

#[test]
fn rule_outcomes_skip_fail_or_record() {
    let mut benefits: Vec<Benefit> = Vec::new();
    let mut matched: Vec<i64> = Vec::new();
    assert!(apply_rule_outcome(&mut benefits, &mut matched, 4, &RuleOutcome::InvalidContent).is_ok());
    assert!(benefits.is_empty() && matched.is_empty());
    let e = apply_rule_outcome(&mut benefits, &mut matched, 5, &RuleOutcome::CreateFailed("bad graph".to_string()));
    assert_eq!(e, Err("create_decision failed for rule 5: bad graph".to_string()));
    let e = apply_rule_outcome(&mut benefits, &mut matched, 6, &RuleOutcome::EvaluateFailed("boom".to_string()));
    assert_eq!(e, Err("evaluate failed for rule 6: boom".to_string()));
    let result = JsonValue::Object(JsonMembers::Cons(
        "benefit".to_string(),
        Box::new(JsonValue::Object(JsonMembers::Cons(
            "amount".to_string(),
            Box::new(JsonValue::Number(JsonNumber::PosInt(5000))),
            Box::new(JsonMembers::Cons(
                "type".to_string(),
                Box::new(JsonValue::Str("CASHBACK".to_string())),
                Box::new(JsonMembers::Nil),
            )),
        ))),
        Box::new(JsonMembers::Nil),
    ));
    assert!(apply_rule_outcome(&mut benefits, &mut matched, 7, &RuleOutcome::Evaluated(result)).is_ok());
    assert_eq!(matched, vec![7]);
    assert_eq!(benefits.len(), 1);
    assert_eq!(benefits[0].amount, 5000);
}

#[test]
fn fetch_rules_error_names_the_evaluator() {
    assert_eq!(fetch_rules_error(9, "timeout"), "fetch rules failed for evaluator 9: timeout");
}

#[test]
fn after_store_appends_only_stored_rows() {
    match after_benefit_store(&Ok(()), "2024-03-05", 12, 3, "abc", "{\"benefits\":[]}") {
        AfterStore::Append { path, line } => {
            assert_eq!(path, "data/output/benefit20240305.txt");
            assert_eq!(
                line,
                "{\"customer_id\":12,\"job_id\":3,\"idempotency_key\":\"abc\",\"value\":{\"benefits\":[]}}"
            );
        }
        _ => panic!("expected an append"),
    }
    let dup = Err("Duplicate entry 'abc' for key 'idempotency_key'".to_string());
    assert!(matches!(after_benefit_store(&dup, "2024-03-05", 12, 3, "abc", "{}"), AfterStore::Duplicate));
    let code = Err("error 1062".to_string());
    assert!(matches!(after_benefit_store(&code, "2024-03-05", 12, 3, "abc", "{}"), AfterStore::Duplicate));
    let other = Err("connection refused".to_string());
    assert!(matches!(after_benefit_store(&other, "2024-03-05", 12, 3, "abc", "{}"), AfterStore::Failed));
}
