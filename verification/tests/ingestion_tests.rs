use benefit_engine::ingestion::{
    all_jobs_from_request, build_ingest_request, build_job, build_job_input, build_time_range_between,
    build_time_range_named, filenames_for_entity, forward_requests, ingest_plan, ingest_response, parse_datetime,
    request_dates_ok, resolve_time_range, validate_ingest, IngestError, IngestRequest, Job, TimeRange,
};
use benefit_engine::time::UtcTime;
use chrono::{Datelike, NaiveDate, Utc};

fn dt(s: &str) -> UtcTime {
    parse_datetime(s).unwrap()
}

fn day(y: i32, m: u32, d: u32) -> i32 {
    NaiveDate::from_ymd_opt(y, m, d).unwrap().num_days_from_ce()
}

fn today() -> i32 {
    Utc::now().date_naive().num_days_from_ce()
}

#[test]
fn test_parse_between() {
    let tr = TimeRange {
        range_type: "between".into(),
        value: "".into(),
        start: "2026-09-01T00:00:00".into(),
        end: "2026-09-07T23:59:59".into(),
    };
    let (s, e) = resolve_time_range(Some(&tr), today());
    assert_eq!(s, dt("2026-09-01T00:00:00"));
    assert_eq!(e, dt("2026-09-07T23:59:59"));
}

#[test]
fn test_filenames_transaction_between() {
    let s = dt("2026-09-01T00:00:00");
    let e = dt("2026-09-07T23:59:59");
    let files = filenames_for_entity("transaction", s, e);
    assert_eq!(files.len(), 7);
    assert_eq!(files[0], "transaction20260901.txt");
    assert_eq!(files[6], "transaction20260907.txt");
}

#[test]
fn test_filenames_transaction_single() {
    let s = dt("2026-09-14T00:00:00");
    let files = filenames_for_entity("transaction", s, s);
    assert_eq!(files, vec!["transaction20260914.txt"]);
}

#[test]
fn test_filenames_customer() {
    let s = dt("2026-09-01T00:00:00");
    let e = dt("2026-09-07T23:59:59");
    let files = filenames_for_entity("customer", s, e);
    assert_eq!(files, vec!["customer.txt"]);
}

#[test]
fn filenames_of_other_entities() {
    let s = dt("2026-09-01T00:00:00");
    assert_eq!(filenames_for_entity("  Product ", s, s), vec!["product.txt"]);
    assert_eq!(filenames_for_entity("", s, s), vec!["customer.txt"]);
    assert_eq!(filenames_for_entity("TRANSACTION", s, s), vec!["transaction20260901.txt"]);
    let e = dt("2026-08-30T00:00:00");
    assert_eq!(filenames_for_entity("transaction", s, e), vec![
        "transaction20260830.txt",
        "transaction20260831.txt",
        "transaction20260901.txt"
    ]);
}

#[test]
fn test_named_today_range_span_is_single_day() {
    let tr = TimeRange { range_type: "named".into(), value: "today".into(), start: "".into(), end: "".into() };
    let (s, e) = resolve_time_range(Some(&tr), today());
    assert_eq!(s.day, e.day);
    assert_eq!(s.day, today());
    let files = filenames_for_entity("transaction", s, e);
    assert_eq!(files.len(), 1);
    let expected = format!("transaction{}.txt", Utc::now().format("%Y%m%d"));
    assert_eq!(files[0], expected);
}

#[test]
fn test_all_jobs_merge() {
    let req = IngestRequest {
        job: vec![Job { evaluator_id: 1, input: vec![] }],
        jobs: vec![Job { evaluator_id: 2, input: vec![] }],
    };
    let all = all_jobs_from_request(&req);
    assert_eq!(all.len(), 2);
    assert_eq!(all[0].evaluator_id, 1);
    assert_eq!(all[1].evaluator_id, 2);
}

#[test]
fn test_parse_datetime_variants() {
    assert!(parse_datetime("2026-09-01T00:00:00").is_ok());
    assert!(parse_datetime("2026-09-01T00:00:00Z").is_ok());
    assert!(parse_datetime("2026-09-01 00:00:00").is_ok());
    assert!(parse_datetime("").is_err());
}

#[test]
fn parse_datetime_values_and_errors() {
    let d = day(2026, 9, 1);
    assert_eq!(dt("2026-09-01T01:02:03"), UtcTime { day: d, secs: 3723, nanos: 0 });
    assert_eq!(dt("2026-09-01T01:02:03+01:00"), UtcTime { day: d, secs: 123, nanos: 0 });
    assert_eq!(dt("  2026-09-01  "), UtcTime { day: d, secs: 0, nanos: 0 });
    assert_eq!(dt("2026-09-01 00:00:00.5"), UtcTime { day: d, secs: 0, nanos: 500_000_000 });
    assert_eq!(parse_datetime("   ").unwrap_err(), "empty datetime");
    assert_eq!(parse_datetime(" nope ").unwrap_err(), "invalid datetime 'nope'");
}

#[test]
fn test_filenames_transaction_between_7_days() {
    let start = parse_datetime("2026-09-01T00:00:00").unwrap();
    let end = parse_datetime("2026-09-07T23:59:59").unwrap();
    let files = filenames_for_entity("transaction", start, end);
    assert_eq!(files.len(), 7);
    assert_eq!(files[0], "transaction20260901.txt");
    assert_eq!(files[3], "transaction20260904.txt");
    assert_eq!(files[6], "transaction20260907.txt");
}

#[test]
fn test_filenames_customer_single() {
    let start = parse_datetime("2026-09-01T00:00:00").unwrap();
    let end = parse_datetime("2026-09-07T23:59:59").unwrap();
    let files = filenames_for_entity("customer", start, end);
    assert_eq!(files, vec!["customer.txt"]);
}

#[test]
fn test_resolve_between() {
    let tr = build_time_range_between("2026-09-01T00:00:00", "2026-09-07T23:59:59");
    let (s, e) = resolve_time_range(Some(&tr), today());
    assert_eq!(s, parse_datetime("2026-09-01T00:00:00").unwrap());
    assert_eq!(e, parse_datetime("2026-09-07T23:59:59").unwrap());
}

#[test]
fn resolve_between_swaps_reversed_and_falls_back_to_today() {
    let tr = build_time_range_between("2026-09-07T00:00:00", "2026-09-01T00:00:00");
    let (s, e) = resolve_time_range(Some(&tr), today());
    assert_eq!(s, dt("2026-09-01T00:00:00"));
    assert_eq!(e, dt("2026-09-07T00:00:00"));
    let bad = build_time_range_between("x", "2026-09-01T00:00:00");
    let t = day(2026, 5, 5);
    assert_eq!(
        resolve_time_range(Some(&bad), t),
        (UtcTime { day: t, secs: 0, nanos: 0 }, UtcTime { day: t, secs: 86399, nanos: 0 })
    );
}

#[test]
fn test_resolve_named_today() {
    let tr = build_time_range_named("today");
    let t = today();
    let (s, e) = resolve_time_range(Some(&tr), t);
    assert_eq!(s, UtcTime { day: t, secs: 0, nanos: 0 });
    assert_eq!(e, UtcTime { day: t, secs: 23 * 3600 + 59 * 60 + 59, nanos: 0 });
    let files = filenames_for_entity("transaction", s, e);
    assert_eq!(files.len(), 1);
    let expected = format!("transaction{}.txt", Utc::now().date_naive().format("%Y%m%d"));
    assert_eq!(files[0], expected);
}

#[test]
fn resolve_named_yesterday_and_missing() {
    let t = day(2026, 3, 1);
    let (s, e) = resolve_time_range(Some(&build_time_range_named(" Yesterday ")), t);
    assert_eq!(s, UtcTime { day: day(2026, 2, 28), secs: 0, nanos: 0 });
    assert_eq!(e.day, day(2026, 2, 28));
    let (s2, e2) = resolve_time_range(None, t);
    assert_eq!((s2.day, s2.secs, e2.day, e2.secs), (t, 0, t, 86399));
}

#[test]
fn test_build_ingest_request_and_helper() {
    let input = build_job_input(
        "data_transaction_widow",
        "transaction",
        Some(build_time_range_between("2026-09-01T00:00:00", "2026-09-07T23:59:59")),
    );
    let job = build_job(1, vec![input]);
    let req = build_ingest_request(vec![job]);
    assert_eq!(req.job[0].evaluator_id, 1);
    assert_eq!(req.job[0].input[0].key, "data_transaction_widow");
    assert_eq!(req.job[0].input[0].entity, "transaction");
}

#[test]
fn test_ingestion_service_rejects_empty() {
    let req = IngestRequest { job: vec![], jobs: vec![] };
    assert_eq!(
        validate_ingest(&req),
        Err(IngestError::InvalidArgument("job array is empty".to_string()))
    );
    let ok = IngestRequest { job: vec![], jobs: vec![build_job(1, vec![])] };
    assert_eq!(validate_ingest(&ok), Ok(()));
}

#[test]
fn ingest_response_counts_jobs() {
    let r = ingest_response(vec![4, 5]);
    assert_eq!(r.job_ids, vec![4, 5]);
    assert_eq!(r.message, "ingested 2 jobs");
}

#[test]
fn ingest_plan_and_forwards() {
    let week = build_job_input(
        "data_transaction_widow",
        "transaction",
        Some(build_time_range_between("2026-09-01T00:00:00", "2026-09-07T23:59:59")),
    );
    let cust = build_job_input("data_customer_today", "customer", Some(build_time_range_named("today")));
    let req = build_ingest_request(vec![build_job(1, vec![week]), build_job(12, vec![cust])]);
    let t = day(2026, 9, 20);
    assert!(request_dates_ok(&req, t));
    let plan = ingest_plan(&req, t);
    assert_eq!(plan.len(), 2);
    assert_eq!(plan[0].evaluator_id, 1);
    assert_eq!(plan[0].details[0].filenames.len(), 7);
    assert_eq!(plan[0].details[0].start, dt("2026-09-01T00:00:00"));
    assert_eq!(plan[1].details[0].filenames, vec!["customer.txt"]);
    assert_eq!(plan[1].details[0].start, UtcTime { day: t, secs: 0, nanos: 0 });

    let fw = forward_requests(&req, &vec![100, 101], t);
    assert_eq!(fw.len(), 2);
    assert_eq!(fw[0].files.len(), 7);
    assert_eq!(fw[0].files[0], "data/transaction/transaction20260901.txt");
    assert_eq!(fw[0].output_dir, "data/output");
    assert_eq!(fw[0].app, "benefit-evaluator");
    assert_eq!(fw[0].n_reduce, 2);
    assert_eq!(fw[0].evaluator_id, 1);
    assert_eq!(fw[0].ingestion_job_id, 100);
    assert_eq!(fw[1].files, vec!["data/customer/customer.txt"]);
    assert_eq!(fw[1].ingestion_job_id, 101);
    let fw2 = forward_requests(&req, &vec![], t);
    assert_eq!(fw2[1].ingestion_job_id, 0);
}

#[test]
fn other_entities_name_one_file_even_on_the_last_day() {
    let last = UtcTime { day: benefit_engine::time::MAX_DAY, secs: 0, nanos: 0 };
    assert_eq!(filenames_for_entity(" Customer ", last, last), vec!["customer.txt"]);
    assert_eq!(filenames_for_entity("Orders", last, last), vec!["orders.txt"]);
}
