use benefit_engine::sql::{
    get_active_rule_by_evaluator_sql, list_evaluators_sql, list_job_details_sql, list_job_files_sql,
    list_jobs_sql, list_rules_sql, parse_naive_opt, EvaluatorFilter, JobDetailFilter, JobFileFilter, JobFilter, RuleFilter,
};
use benefit_engine::time::UtcTime;
use chrono::{Datelike, NaiveDateTime, Timelike};

#[test]
fn effective_id_prefers_id_over_evaluator_id() {
    let filter = EvaluatorFilter { id: Some(1), evaluator_id: Some(2) };
    assert_eq!(filter.effective_id(), Some(1));
}

#[test]
fn effective_id_falls_back_to_evaluator_id() {
    let filter = EvaluatorFilter { id: None, evaluator_id: Some(7) };
    assert_eq!(filter.effective_id(), Some(7));
}

#[test]
fn effective_id_is_none_when_both_are_missing() {
    assert_eq!(EvaluatorFilter::default().effective_id(), None);
}

#[test]
fn filter_default_has_no_filter() {
    let f = RuleFilter::default();
    assert!(!f.has_any());
}

#[test]
fn filter_with_id_has_any() {
    let f = RuleFilter { id: Some(1), ..Default::default() };
    assert!(f.has_any());
}

#[test]
fn list_all_sql_has_no_id_predicate_but_keeps_guards() {
    let sql = list_evaluators_sql(false);
    assert!(!sql.contains("id = ?"));
    assert!(sql.contains("deleted_at IS NULL"));
    assert!(sql.contains("start_valid_date IS NULL OR start_valid_date <= ?"));
    assert!(sql.contains("end_valid_date IS NULL OR end_valid_date >= ?"));
    assert!(!sql.contains("NOW()"));
}

#[test]
fn list_by_id_sql_filters_on_id_and_keeps_guards() {
    let sql = list_evaluators_sql(true);
    assert!(sql.contains("id = ?"));
    assert!(sql.contains("deleted_at IS NULL"));
    assert!(sql.contains("start_valid_date IS NULL OR start_valid_date <= ?"));
    assert!(sql.contains("end_valid_date IS NULL OR end_valid_date >= ?"));
    assert!(!sql.contains("NOW()"));
}

#[test]
fn list_queries_use_bind_placeholders_for_now() {
    for has_id in [true, false] {
        let sql = list_evaluators_sql(has_id);
        let expected = if has_id { 3 } else { 2 };
        assert_eq!(
            sql.matches('?').count(),
            expected,
            "unexpected placeholder count for has_id={has_id}: {sql}"
        );
    }
}

#[test]
fn list_sql_always_filters_is_active_true() {
    let f = RuleFilter::default();
    let sql = list_rules_sql(&f);
    assert!(sql.contains("is_active = TRUE"), "sql must filter is_active: {}", sql);
    assert!(!sql.contains("is_active = ?"), "is_active should be hardcoded TRUE, not bind");
}

#[test]
fn list_sql_with_evaluator_id_and_is_active() {
    let f = RuleFilter { evaluator_id: Some(7), ..Default::default() };
    let sql = list_rules_sql(&f);
    assert!(sql.contains("is_active = TRUE"));
    assert!(sql.contains("evaluator_id = ?"));
    assert_eq!(sql, "SELECT id, evaluator_id, content, input, version, description, is_active, created_at, created_by FROM rule WHERE is_active = TRUE AND evaluator_id = ?");
}

#[test]
fn list_sql_with_id_and_evaluator_id() {
    let f = RuleFilter { id: Some(1), evaluator_id: Some(7) };
    let sql = list_rules_sql(&f);
    assert!(sql.contains("is_active = TRUE"));
    assert!(sql.contains("id = ?"));
    assert!(sql.contains("evaluator_id = ?"));
    assert!(sql.find("id = ?").unwrap() < sql.find("evaluator_id = ?").unwrap());
}

#[test]
fn get_active_rule_by_evaluator_sql_is_correct() {
    let sql = get_active_rule_by_evaluator_sql();
    assert_eq!(
        sql,
        "SELECT id, evaluator_id, content, input, version, description, is_active, created_at, created_by FROM rule WHERE evaluator_id = ? AND is_active = TRUE"
    );
}

#[test]
fn list_sql_no_injection_placeholder_for_is_active() {
    let f = RuleFilter { id: Some(1), ..Default::default() };
    let sql = list_rules_sql(&f);
    assert_eq!(sql.matches('?').count(), 1);
}

#[test]
fn get_sql_uses_is_active_true_with_evaluator_id() {
    let filter = RuleFilter { evaluator_id: Some(42), ..Default::default() };
    let sql = list_rules_sql(&filter);
    assert!(sql.contains("evaluator_id = ?"));
    assert!(sql.contains("is_active = TRUE"));
    assert_eq!(sql.matches('?').count(), 1);
}

#[test]
fn get_sql_with_id_and_evaluator_binds_both() {
    let filter = RuleFilter { id: Some(1), evaluator_id: Some(7) };
    let sql = list_rules_sql(&filter);
    assert_eq!(sql.matches('?').count(), 2);
}

fn dt(s: &str) -> UtcTime {
    let n = NaiveDateTime::parse_from_str(s, "%Y-%m-%d %H:%M:%S").unwrap();
    UtcTime { day: n.date().num_days_from_ce(), secs: n.time().num_seconds_from_midnight(), nanos: 0 }
}

const JOB_SELECT: &str = "SELECT id, evaluator_id, status, created_at, updated_at FROM job WHERE 1=1";
const DETAIL_SELECT: &str =
    "SELECT id, job_id, entity, `key`, file_start_range, file_end_range FROM job_detail WHERE 1=1";
const FILE_SELECT: &str =
    "SELECT id, job_detail_id, filename, status, created_at, updated_at FROM job_file WHERE 1=1";

#[test]
fn list_test_test_sql_no_filter() {
    assert_eq!(list_jobs_sql(&JobFilter::default()), JOB_SELECT);
}

#[test]
fn list_test_test_sql_id_only() {
    let f = JobFilter { id: Some(1), ..Default::default() };
    assert_eq!(list_jobs_sql(&f), format!("{} AND id = ?", JOB_SELECT));
}

#[test]
fn test_sql_evaluator_id_only() {
    let f = JobFilter { evaluator_id: Some(2), ..Default::default() };
    assert_eq!(list_jobs_sql(&f), format!("{} AND evaluator_id = ?", JOB_SELECT));
}

#[test]
fn test_sql_id_and_evaluator_id() {
    let f = JobFilter { id: Some(1), evaluator_id: Some(2), ..Default::default() };
    assert_eq!(list_jobs_sql(&f), format!("{} AND id = ? AND evaluator_id = ?", JOB_SELECT));
}

#[test]
fn list_test_test_sql_status_only() {
    let f = JobFilter { status: Some("PROCESSING".into()), ..Default::default() };
    assert_eq!(list_jobs_sql(&f), format!("{} AND status = ?", JOB_SELECT));
}

#[test]
fn list_test_test_sql_created_at_only() {
    let f = JobFilter { created_at: Some(dt("2024-01-01 00:00:00")), ..Default::default() };
    assert_eq!(list_jobs_sql(&f), format!("{} AND created_at = ?", JOB_SELECT));
}

#[test]
fn list_test_test_sql_deleted_at_only() {
    let f = JobFilter { deleted_at: Some(dt("2024-01-15 00:00:00")), ..Default::default() };
    assert_eq!(list_jobs_sql(&f), format!("{} AND deleted_at = ?", JOB_SELECT));
}

#[test]
fn test_sql_status_created_deleted() {
    let f = JobFilter {
        status: Some("COMPLETED".into()),
        created_at: Some(dt("2024-01-01 00:00:00")),
        deleted_at: Some(dt("2024-01-31 23:59:59")),
        ..Default::default()
    };
    assert_eq!(list_jobs_sql(&f), format!("{} AND status = ? AND created_at = ? AND deleted_at = ?", JOB_SELECT));
}

#[test]
fn list_test_test_sql_all_fields() {
    let f = JobFilter {
        id: Some(1),
        evaluator_id: Some(2),
        status: Some("ERROR".into()),
        created_at: Some(dt("2024-01-01 00:00:00")),
        deleted_at: Some(dt("2024-01-31 23:59:59")),
    };
    assert_eq!(
        list_jobs_sql(&f),
        format!("{} AND id = ? AND evaluator_id = ? AND status = ? AND created_at = ? AND deleted_at = ?", JOB_SELECT)
    );
}

#[test]
fn test_sql_id_status() {
    let f = JobFilter { id: Some(5), status: Some("PROCESSING".into()), ..Default::default() };
    assert_eq!(list_jobs_sql(&f), format!("{} AND id = ? AND status = ?", JOB_SELECT));
}

#[test]
fn test_sql_evaluator_created() {
    let f = JobFilter { evaluator_id: Some(10), created_at: Some(dt("2024-02-01 00:00:00")), ..Default::default() };
    assert_eq!(list_jobs_sql(&f), format!("{} AND evaluator_id = ? AND created_at = ?", JOB_SELECT));
}

#[test]
fn job_detail_test_sql_no_filter() {
    assert_eq!(list_job_details_sql(&JobDetailFilter::default()), DETAIL_SELECT);
}

#[test]
fn test_sql_job_id_only() {
    let f = JobDetailFilter { job_id: Some(42), ..Default::default() };
    assert_eq!(list_job_details_sql(&f), format!("{} AND job_id = ?", DETAIL_SELECT));
}

#[test]
fn test_sql_between_range() {
    let f = JobDetailFilter {
        job_id: Some(1),
        file_start_range: Some(dt("2024-01-01 00:00:00")),
        file_end_range: Some(dt("2024-01-31 23:59:59")),
        ..Default::default()
    };
    assert_eq!(
        list_job_details_sql(&f),
        format!("{} AND job_id = ? AND file_start_range >= ? AND file_end_range <= ?", DETAIL_SELECT)
    );
}

#[test]
fn test_sql_between_without_job_id() {
    let f = JobDetailFilter {
        file_start_range: Some(dt("2024-01-01 00:00:00")),
        file_end_range: Some(dt("2024-01-31 23:59:59")),
        ..Default::default()
    };
    assert_eq!(list_job_details_sql(&f), format!("{} AND file_start_range >= ? AND file_end_range <= ?", DETAIL_SELECT));
}

#[test]
fn test_sql_typo_field_compat() {
    let f = JobDetailFilter {
        file_start_range: Some(dt("2024-01-01 00:00:00")),
        file_end_range: Some(dt("2024-01-31 23:59:59")),
        ..Default::default()
    };
    assert_eq!(f.effective_file_start(), Some(dt("2024-01-01 00:00:00")));
    assert_eq!(list_job_details_sql(&f), format!("{} AND file_start_range >= ? AND file_end_range <= ?", DETAIL_SELECT));
}

#[test]
fn job_detail_test_sql_id_only() {
    let f = JobDetailFilter { id: Some(5), ..Default::default() };
    assert_eq!(list_job_details_sql(&f), format!("{} AND id = ?", DETAIL_SELECT));
}

#[test]
fn test_sql_file_start_only() {
    let f = JobDetailFilter { file_start_range: Some(dt("2024-01-01 00:00:00")), ..Default::default() };
    assert_eq!(list_job_details_sql(&f), format!("{} AND file_start_range >= ?", DETAIL_SELECT));
}

#[test]
fn test_sql_file_end_only() {
    let f = JobDetailFilter { file_end_range: Some(dt("2024-01-31 23:59:59")), ..Default::default() };
    assert_eq!(list_job_details_sql(&f), format!("{} AND file_end_range <= ?", DETAIL_SELECT));
}

#[test]
fn test_sql_id_job_both_ranges() {
    let f = JobDetailFilter {
        id: Some(9),
        job_id: Some(1),
        file_start_range: Some(dt("2024-01-01 00:00:00")),
        file_end_range: Some(dt("2024-01-31 23:59:59")),
    };
    assert_eq!(
        list_job_details_sql(&f),
        format!("{} AND id = ? AND job_id = ? AND file_start_range >= ? AND file_end_range <= ?", DETAIL_SELECT)
    );
}

#[test]
fn test_sql_file_star_alone() {
    let f = JobDetailFilter { file_start_range: Some(dt("2024-01-01 00:00:00")), ..Default::default() };
    assert_eq!(list_job_details_sql(&f), format!("{} AND file_start_range >= ?", DETAIL_SELECT));
}

#[test]
fn job_file_test_sql_no_filter() {
    assert_eq!(list_job_files_sql(&JobFileFilter::default()), FILE_SELECT);
}

#[test]
fn job_file_test_sql_id_only() {
    let f = JobFileFilter { id: Some(1), ..Default::default() };
    assert_eq!(list_job_files_sql(&f), format!("{} AND id = ?", FILE_SELECT));
}

#[test]
fn test_sql_job_detail_id_only() {
    let f = JobFileFilter { job_detail_id: Some(2), ..Default::default() };
    assert_eq!(list_job_files_sql(&f), format!("{} AND job_detail_id = ?", FILE_SELECT));
}

#[test]
fn test_sql_id_and_job_detail_id() {
    let f = JobFileFilter { id: Some(1), job_detail_id: Some(2), ..Default::default() };
    assert_eq!(list_job_files_sql(&f), format!("{} AND id = ? AND job_detail_id = ?", FILE_SELECT));
}

#[test]
fn test_sql_filename_only() {
    let f = JobFileFilter { filename: Some("data.parquet".into()), ..Default::default() };
    assert_eq!(list_job_files_sql(&f), format!("{} AND filename = ?", FILE_SELECT));
}

#[test]
fn job_file_test_sql_status_only() {
    let f = JobFileFilter { status: Some("PROCESSING".into()), ..Default::default() };
    assert_eq!(list_job_files_sql(&f), format!("{} AND status = ?", FILE_SELECT));
}

#[test]
fn job_file_test_sql_created_at_only() {
    let f = JobFileFilter { created_at: Some(dt("2024-01-01 00:00:00")), ..Default::default() };
    assert_eq!(list_job_files_sql(&f), format!("{} AND created_at = ?", FILE_SELECT));
}

#[test]
fn job_file_test_sql_deleted_at_only() {
    let f = JobFileFilter { deleted_at: Some(dt("2024-01-15 00:00:00")), ..Default::default() };
    assert_eq!(list_job_files_sql(&f), format!("{} AND deleted_at = ?", FILE_SELECT));
}

#[test]
fn job_file_test_sql_all_fields() {
    let f = JobFileFilter {
        id: Some(1),
        job_detail_id: Some(2),
        filename: Some("file.txt".into()),
        status: Some("COMPLETED".into()),
        created_at: Some(dt("2024-01-01 00:00:00")),
        deleted_at: Some(dt("2024-01-31 23:59:59")),
    };
    assert_eq!(
        list_job_files_sql(&f),
        format!(
            "{} AND id = ? AND job_detail_id = ? AND filename = ? AND status = ? AND created_at = ? AND deleted_at = ?",
            FILE_SELECT
        )
    );
}

#[test]
fn test_sql_filename_status() {
    let f = JobFileFilter { filename: Some("a.csv".into()), status: Some("ERROR".into()), ..Default::default() };
    assert_eq!(list_job_files_sql(&f), format!("{} AND filename = ? AND status = ?", FILE_SELECT));
}

#[test]
fn active_rules_query_matches_rule_list_by_evaluator() {
    let a = get_active_rule_by_evaluator_sql();
    let b = list_rules_sql(&RuleFilter { id: None, evaluator_id: Some(5) });
    let (ha, ca) = a.split_once(" WHERE ").unwrap();
    let (hb, cb) = b.split_once(" WHERE ").unwrap();
    assert_eq!(ha, hb);
    let mut pa: Vec<&str> = ca.split(" AND ").collect();
    let mut pb: Vec<&str> = cb.split(" AND ").collect();
    pa.sort();
    pb.sort();
    assert_eq!(pa, pb);
    assert_eq!(a.matches('?').count(), 1);
    assert_eq!(b.matches('?').count(), 1);
}

#[test]
fn evaluator_query_by_id_inserts_the_id_first() {
    let all = list_evaluators_sql(false);
    let by_id = list_evaluators_sql(true);
    assert_eq!(by_id, all.replacen("deleted_at IS NULL AND ", "deleted_at IS NULL AND id = ? AND ", 1));
}

#[test]
fn evaluator_dates_read_with_or_without_fractions() {
    let day = chrono::NaiveDate::from_ymd_opt(2020, 1, 1).unwrap().num_days_from_ce();
    assert_eq!(parse_naive_opt(Some("2020-01-01 00:00:10")), Some(UtcTime { day, secs: 10, nanos: 0 }));
    assert_eq!(
        parse_naive_opt(Some("2020-01-01 00:00:10.5")),
        Some(UtcTime { day, secs: 10, nanos: 500_000_000 })
    );
    assert_eq!(parse_naive_opt(Some("2020-01-01")), None);
    assert_eq!(parse_naive_opt(None), None);
}
