use benefit_engine::client::{
    build_submit_job_request, build_submit_job_request_with_ids, coordinator_endpoint, default_submit_job_request,
    Args, Client,
};
use benefit_engine::ingestion::IngestRequest;
use benefit_engine::json::{JsonList, JsonMembers, JsonValue};
use benefit_engine::models::{EvaluatorModel, RuleModel};
use benefit_engine::scheduler::{
    build_demo_request, build_request_from_evaluators, choose_request, ingestion_endpoint, normalize_cron,
    parse_schedule, parse_timezone, rule_input_to_job_inputs, Scheduler, SchedulerConfig,
};
use benefit_engine::time::UtcTime;
use chrono::{Datelike, NaiveDate};

fn utc(y: i32, mo: u32, d: u32, h: u32, mi: u32, s: u32) -> UtcTime {
    let day = NaiveDate::from_ymd_opt(y, mo, d).unwrap().num_days_from_ce();
    UtcTime { day, secs: h * 3600 + mi * 60 + s, nanos: 0 }
}

fn cfg(cron: &str) -> SchedulerConfig {
    SchedulerConfig { enabled: true, cron: cron.to_string(), timezone: "UTC".into() }
}

fn obj(ms: Vec<(&str, JsonValue)>) -> JsonValue {
    let mut acc = JsonMembers::Nil;
    for (k, v) in ms.into_iter().rev() {
        acc = JsonMembers::Cons(k.to_string(), Box::new(v), Box::new(acc));
    }
    JsonValue::Object(acc)
}

fn arr(xs: Vec<JsonValue>) -> JsonValue {
    let mut acc = JsonList::Nil;
    for x in xs.into_iter().rev() {
        acc = JsonList::Cons(Box::new(x), Box::new(acc));
    }
    JsonValue::Array(acc)
}

fn s(t: &str) -> JsonValue {
    JsonValue::Str(t.to_string())
}

fn input(key: &str, entity: &str, range: JsonValue) -> JsonValue {
    obj(vec![("key", s(key)), ("entity", s(entity)), ("time_range", range)])
}

fn named(v: &str) -> JsonValue {
    obj(vec![("type", s("named")), ("value", s(v))])
}

fn between(a: &str, b: &str) -> JsonValue {
    obj(vec![("type", s("between")), ("start", s(a)), ("end", s(b))])
}

fn evaluator(id: i64) -> EvaluatorModel {
    EvaluatorModel {
        id,
        name: "test_eval".into(),
        start_valid_date: None,
        end_valid_date: None,
        is_active: true,
        running_frequency: None,
        created_at: None,
        created_by: None,
        updated_at: None,
        updated_by: None,
        deleted_at: None,
        deleted_by: None,
    }
}

fn rule(id: i64, evaluator_id: i64, input: JsonValue) -> RuleModel {
    RuleModel {
        id,
        evaluator_id,
        content: obj(vec![]),
        input,
        version: Some(1),
        description: None,
        is_active: true,
        created_at: None,
        created_by: None,
    }
}

#[test]
fn normalize_5_to_6() {
    assert_eq!(normalize_cron("0 2 * * *"), "0 0 2 * * *");
    assert_eq!(normalize_cron("*/5 * * * *"), "0 */5 * * * *");
    assert_eq!(normalize_cron("0 0 2 * * *"), "0 0 2 * * *");
}

#[test]
fn normalize_trims_and_counts_words() {
    assert_eq!(normalize_cron("  0   2 * * *  "), "0 0   2 * * *");
    assert_eq!(normalize_cron(""), "");
    assert_eq!(normalize_cron("a b c"), "a b c");
}

#[test]
fn parse_5_field() {
    let s = parse_schedule("0 2 * * *").unwrap();
    assert_eq!(s.expression, "0 0 2 * * *");
    let sched = Scheduler::new(cfg("0 2 * * *"));
    let next = sched.next_run_from(utc(2026, 1, 1, 0, 0, 0)).unwrap();
    assert_eq!(next.secs / 3600, 2);
}

#[test]
fn parse_6_field() {
    parse_schedule("0 0 2 * * *").unwrap();
}

#[test]
fn invalid_cron_errors() {
    assert!(parse_schedule("not a cron").is_err());
    assert!(parse_schedule("").is_err());
    assert_eq!(
        parse_schedule("not a cron").unwrap_err(),
        "invalid cron expression: 'not a cron' (normalized: 'not a cron')"
    );
}

#[test]
fn next_run_daily_2am() {
    let sched = Scheduler::new(cfg("0 2 * * *"));
    let next = sched.next_run_from(utc(2026, 1, 1, 1, 0, 0)).unwrap();
    assert_eq!(next, utc(2026, 1, 1, 2, 0, 0));
    let next2 = sched.next_run_from(utc(2026, 1, 1, 3, 0, 0)).unwrap();
    assert_eq!(next2, utc(2026, 1, 2, 2, 0, 0));
}

#[test]
fn every_minute() {
    let sched = Scheduler::new(cfg("* * * * *"));
    let next = sched.next_run_from(utc(2026, 1, 1, 0, 0, 0)).unwrap();
    assert_eq!(next, utc(2026, 1, 1, 0, 1, 0));
}

#[test]
fn disabled_returns_none() {
    let mut c = cfg("0 2 * * *");
    c.enabled = false;
    let sched = Scheduler::new(c);
    assert!(!sched.is_enabled());
    assert!(sched.next_run_from(utc(2026, 1, 1, 0, 0, 0)).is_none());
    assert!(sched.duration_until_next_from(utc(2026, 1, 1, 0, 0, 0)).is_none());
}

#[test]
fn invalid_expression_never_fires() {
    let sched = Scheduler::new(cfg("not a cron"));
    assert!(sched.schedule().is_err());
    assert!(sched.next_run_from(utc(2026, 1, 1, 0, 0, 0)).is_none());
}

#[test]
fn timezone_jakarta_ahead_of_utc() {
    let mut c = cfg("0 2 * * *");
    c.timezone = "Asia/Jakarta".into();
    let sched = Scheduler::new(c);
    assert_eq!(sched.timezone(), "Asia/Jakarta");
    let next = sched.next_run_from(utc(2026, 1, 1, 0, 0, 0)).unwrap();
    assert_eq!(next, utc(2026, 1, 1, 19, 0, 0));
}

#[test]
fn unknown_timezone_falls_back_to_utc() {
    assert_eq!(parse_timezone("Mars/Olympus"), "UTC");
    assert_eq!(parse_timezone("Asia/Jakarta"), "Asia/Jakarta");
    let mut c = cfg("0 2 * * *");
    c.timezone = "Mars/Olympus".into();
    let sched = Scheduler::new(c);
    assert_eq!(sched.next_run_from(utc(2026, 1, 1, 1, 0, 0)).unwrap(), utc(2026, 1, 1, 2, 0, 0));
}

#[test]
fn duration_until_next_is_positive() {
    let sched = Scheduler::new(cfg("*/5 * * * *"));
    let ms = sched.duration_until_next_from(utc(2026, 1, 1, 0, 0, 0)).unwrap();
    assert!(ms / 1000 > 0);
    assert!(ms / 1000 <= 5 * 60);
    assert_eq!(ms, 5 * 60 * 1000);
}

#[test]
fn mod_build_request_preserves_array() {
    let req = build_submit_job_request(
        vec![
            "data/transaction/transaction20260618.txt".into(),
            "data/transaction/transaction20260619.txt".into(),
        ],
        "data/output".into(),
        "benefit-evaluator".into(),
        2,
        "transaction_today".into(),
        "transaction".into(),
    );
    assert_eq!(req.files.len(), 2);
    assert_eq!(req.files[0], "data/transaction/transaction20260618.txt");
    assert_eq!(req.n_reduce, 2);
    assert_eq!(req.key, "transaction_today");
    assert_eq!(req.evaluator_id, 0);
    assert_eq!(req.ingestion_job_id, 0);
}

#[test]
fn mod_default_request_matches_grpcurl_example() {
    let req = default_submit_job_request();
    assert_eq!(req.files, vec!["data/transaction/transaction20260618.txt"]);
    assert_eq!(req.output_dir, "data/output");
    assert_eq!(req.app, "benefit-evaluator");
    assert_eq!(req.n_reduce, 2);
    assert_eq!(req.key, "transaction_today");
    assert_eq!(req.entity, "transaction");
}

#[test]
fn request_with_ids_keeps_ids() {
    let req = build_submit_job_request_with_ids(vec![], "o".into(), "a".into(), 3, "k".into(), "e".into(), 7, 9);
    assert_eq!((req.evaluator_id, req.ingestion_job_id, req.n_reduce), (7, 9, 3));
}

#[test]
fn scheduler_builds_submitjobs_request_with_4_cases() {
    let req = build_demo_request();
    assert_eq!(req.job.len(), 4);
    assert_eq!(req.job[0].evaluator_id, 1);
    assert_eq!(req.job[0].input[0].entity, "transaction");
    assert_eq!(req.job[0].input[0].time_range.as_ref().unwrap().range_type, "between");
    assert_eq!(req.job[1].input[0].time_range.as_ref().unwrap().range_type, "named");
    assert_eq!(req.job[1].input[0].time_range.as_ref().unwrap().value, "today");
    assert_eq!(req.job[2].input[0].entity, "customer");
    assert_eq!(req.job[2].input[0].time_range.as_ref().unwrap().range_type, "between");
    assert_eq!(req.job[3].input[0].entity, "customer");
    assert_eq!(req.job[3].input[0].time_range.as_ref().unwrap().value, "today");
    let tr_between = req.job[0].input[0].time_range.as_ref().unwrap();
    assert_eq!(tr_between.start, "2026-09-01T00:00:00");
    assert_eq!(tr_between.end, "2026-09-07T23:59:59");
}

#[test]
fn rule_input_to_job_input_between() {
    let v = input("k1", "transaction", between("2026-09-01T00:00:00", "2026-09-07T23:59:59"));
    let jis = rule_input_to_job_inputs(&v);
    assert_eq!(jis.len(), 1);
    assert_eq!(jis[0].key, "k1");
    assert_eq!(jis[0].entity, "transaction");
    assert_eq!(jis[0].time_range.as_ref().unwrap().range_type, "between");
    assert_eq!(jis[0].time_range.as_ref().unwrap().start, "2026-09-01T00:00:00");
}

#[test]
fn rule_input_to_job_input_named() {
    let v = input("k2", "customer", named("today"));
    let jis = rule_input_to_job_inputs(&v);
    assert_eq!(jis.len(), 1);
    assert_eq!(jis[0].entity, "customer");
    assert_eq!(jis[0].time_range.as_ref().unwrap().value, "today");
}

#[test]
fn rule_input_array_wrapped() {
    let v = arr(vec![
        input("a", "transaction", named("today")),
        input("b", "customer", between("2026-09-01T00:00:00", "2026-09-02T00:00:00")),
    ]);
    let jis = rule_input_to_job_inputs(&v);
    assert_eq!(jis.len(), 2);
    assert_eq!(jis[1].key, "b");
}

#[test]
fn rule_input_of_other_values_is_empty() {
    assert!(rule_input_to_job_inputs(&JsonValue::Null).is_empty());
    assert!(rule_input_to_job_inputs(&s("x")).is_empty());
}

#[test]
fn build_request_from_evaluators_maps_rules() {
    let rules = vec![rule(1, 42, input("k1", "transaction", named("today")))];
    let req = build_request_from_evaluators(vec![(evaluator(42), rules)]);
    assert_eq!(req.job.len(), 1);
    assert_eq!(req.job[0].evaluator_id, 42);
    assert_eq!(req.job[0].input.len(), 1);
    assert_eq!(req.job[0].input[0].key, "k1");
}

#[test]
fn build_request_uses_fallback_inputs() {
    let req = build_request_from_evaluators(vec![
        (evaluator(5), vec![rule(9, 5, JsonValue::Null)]),
        (evaluator(6), vec![]),
    ]);
    assert_eq!(req.job.len(), 2);
    assert_eq!(req.job[0].input[0].key, "rule_9_fallback");
    assert_eq!(req.job[0].input[0].entity, "transaction");
    assert_eq!(req.job[0].input[0].time_range.as_ref().unwrap().value, "today");
    assert_eq!(req.job[1].input[0].key, "default");
}

#[test]
fn choose_request_prefers_database_jobs() {
    let from_db = build_request_from_evaluators(vec![(evaluator(3), vec![])]);
    assert_eq!(choose_request(Some(from_db)).job[0].evaluator_id, 3);
    assert_eq!(choose_request(None).job.len(), 4);
    let empty = IngestRequest { job: vec![], jobs: vec![] };
    assert_eq!(choose_request(Some(empty)).job.len(), 4);
}

#[test]
fn ingestion_endpoint_uses_ingestion_config() {
    let ep = ingestion_endpoint("127.0.0.1:50052");
    assert!(ep.starts_with("http://"));
    assert!(ep.contains(":"), "endpoint should be http://host:port");
    assert_eq!(ep, "http://127.0.0.1:50052");
}

#[test]
fn client_keeps_endpoint() {
    let c = Client::new("http://h:1".to_string());
    assert_eq!(c.endpoint(), "http://h:1");
    assert_eq!(Client::from_env("h:2").endpoint(), "http://h:2");
    assert_eq!(coordinator_endpoint("h:3"), "http://h:3");
    let _ = Args::parse();
}

#[test]
fn normalize_twice_is_normalize_once() {
    for c in ["0 2 * * *", "  */5 * * * * ", "0 0 2 * * *", "a b c d e f g", "", " x "] {
        let once = normalize_cron(c);
        assert_eq!(normalize_cron(&once), once);
    }
}
