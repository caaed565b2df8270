use benefit_engine::report::select_report_inputs;
use benefit_engine::text::contains_text;
use benefit_engine::codec::KeyValue;
use benefit_engine::json::{JsonMembers, JsonNumber, JsonValue};
use benefit_engine::report::{
    cashback_outcome, decision_name, is_reduce_output_name, match_status, report_file_name, report_records,
    totals_input, CustomerRecord,
};

fn record(sum: u64, count: u64, debit: u64, credit: u64) -> Vec<u8> {
    let mut v = Vec::new();
    for x in [sum, count, debit, credit] {
        v.extend_from_slice(&x.to_be_bytes());
    }
    v
}

fn obj(ms: Vec<(&str, JsonValue)>) -> JsonValue {
    let mut acc = JsonMembers::Nil;
    for (k, v) in ms.into_iter().rev() {
        acc = JsonMembers::Cons(k.to_string(), Box::new(v), Box::new(acc));
    }
    JsonValue::Object(acc)
}

#[test]
fn report_records_sorted_by_key_and_skip_short_values() {
    let kvs = vec![
        KeyValue::new(b"2".to_vec(), record(200, 1, 1, 0)),
        KeyValue::new(b"1".to_vec(), record(2500000300, 5, 3, 2)),
        KeyValue::new(b"3".to_vec(), vec![0; 8]),
    ];
    let recs = report_records(&kvs);
    assert_eq!(
        recs,
        vec![
            CustomerRecord { customer_id: "1".into(), sum: 2500000300, count: 5, debit: 3, credit: 2 },
            CustomerRecord { customer_id: "2".into(), sum: 200, count: 1, debit: 1, credit: 0 },
        ]
    );
    let lossy = report_records(&vec![KeyValue::new(vec![0xff], record(1, 1, 0, 0))]);
    assert_eq!(lossy[0].customer_id, "\u{fffd}");
}

#[test]
fn totals_input_shape() {
    let expected = obj(vec![(
        "transaction",
        obj(vec![(
            "transaction_today",
            obj(vec![
                ("count", JsonValue::Number(JsonNumber::PosInt(150))),
                ("sum", JsonValue::Number(JsonNumber::PosInt(1500000000))),
            ]),
        )]),
    )]);
    assert_eq!(totals_input(1500000000, 150), expected);
}

#[test]
fn cashback_outcome_reads_benefit() {
    let hit = obj(vec![(
        "benefit",
        obj(vec![
            ("type", JsonValue::Str("CASHBACK".into())),
            ("amount", JsonValue::Number(JsonNumber::PosInt(5000000))),
        ]),
    )]);
    assert_eq!(cashback_outcome(&hit), (true, "CASHBACK".to_string(), 5000000));
    let zero = obj(vec![(
        "benefit",
        obj(vec![("type", JsonValue::Str("CASHBACK".into())), ("amount", JsonValue::Number(JsonNumber::PosInt(0)))]),
    )]);
    assert_eq!(cashback_outcome(&zero), (false, "CASHBACK".to_string(), 0));
    assert_eq!(cashback_outcome(&JsonValue::Null), (false, String::new(), 0));
    assert_eq!(match_status(true), "MATCH");
    assert_eq!(match_status(false), "NO_MATCH");
}

#[test]
fn output_names() {
    assert!(is_reduce_output_name("mr-out-0"));
    assert!(!is_reduce_output_name("mr-ou"));
    assert!(!is_reduce_output_name("benefit.txt"));
    assert_eq!(decision_name(None), "cashback");
    assert_eq!(decision_name(Some("rule")), "rule");
    assert_eq!(report_file_name("20260920-010203", "cashback"), "20260920-010203-cashback.txt");
}

#[test]
fn report_reads_reduce_outputs_sorted() {
    let names = vec!["mr-out-2".to_string(), "notes.txt".to_string(), "mr-out-0".to_string()];
    assert_eq!(select_report_inputs(&names, false), vec!["mr-out-0", "mr-out-2"]);
    let names = vec!["b.bin".to_string(), "a.txt".to_string(), ".txt".to_string()];
    assert_eq!(select_report_inputs(&names, true), vec![".txt", "b.bin"]);
    assert_eq!(select_report_inputs(&names, false), vec![".txt", "a.txt", "b.bin"]);
    assert!(select_report_inputs(&Vec::new(), false).is_empty());
}

#[test]
fn text_contains_like_str_contains() {
    assert!(contains_text("Duplicate entry 'x'", "Duplicate entry"));
    assert!(contains_text("abc", ""));
    assert!(!contains_text("ab", "abc"));
    assert!(contains_text("xx1062", "1062"));
    assert!(!contains_text("UNIQ", "UNIQUE"));
}
