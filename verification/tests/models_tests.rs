use benefit_engine::json::{JsonList, JsonMembers, JsonNumber, JsonValue};
use benefit_engine::models::{BenefitModel, EvaluatorModel, JobDetailModel, JobFileModel, JobModel, RuleModel};
use benefit_engine::time::UtcTime;
use chrono::{Datelike, NaiveDate};

fn evaluator() -> EvaluatorModel {
    EvaluatorModel {
        id: 1,
        name: "eval".to_string(),
        start_valid_date: None,
        end_valid_date: None,
        is_active: true,
        running_frequency: Some("MONTHLY".to_string()),
        created_at: None,
        created_by: None,
        updated_at: None,
        updated_by: None,
        deleted_at: None,
        deleted_by: None,
    }
}

fn rule() -> RuleModel {
    RuleModel {
        id: 1,
        evaluator_id: 2,
        content: JsonValue::Object(JsonMembers::Cons(
            "nodes".to_string(),
            Box::new(JsonValue::Null),
            Box::new(JsonMembers::Nil),
        )),
        input: JsonValue::Null,
        version: Some(3),
        description: Some("r".to_string()),
        is_active: true,
        created_at: None,
        created_by: None,
    }
}

fn benefit() -> BenefitModel {
    BenefitModel {
        id: 1,
        evaluator_id: 2,
        customer_id: 3,
        value: None,
        description: Some("test".to_string()),
        expired_at: None,
        created_at: None,
    }
}

fn at(y: i32, m: u32, d: u32, secs: u32) -> UtcTime {
    UtcTime { day: NaiveDate::from_ymd_opt(y, m, d).unwrap().num_days_from_ce(), secs, nanos: 0 }
}

fn num(v: &JsonValue) -> Option<i64> {
    match v {
        JsonValue::Number(JsonNumber::PosInt(n)) => Some(*n as i64),
        JsonValue::Number(JsonNumber::NegInt(n)) => Some(*n),
        _ => None,
    }
}

fn text(v: &JsonValue) -> Option<&str> {
    match v {
        JsonValue::Str(s) => Some(s.as_str()),
        _ => None,
    }
}

#[test]
fn evaluator_test_test_table_name() {
    assert_eq!(evaluator().table_name(), "evaluator");
}

#[test]
fn evaluator_test_test_get_columns() {
    assert_eq!(
        evaluator().get_columns(),
        vec![
            "id",
            "name",
            "start_valid_date",
            "end_valid_date",
            "is_active",
            "running_frequency",
            "created_at",
            "created_by",
            "updated_at",
            "updated_by",
            "deleted_at",
            "deleted_by"
        ]
    );
}

#[test]
fn evaluator_test_test_get_val_struct() {
    let f = evaluator();
    let values = f.get_val_struct(&f.get_columns());
    assert_eq!(num(&values[0]), Some(1));
    assert_eq!(text(&values[1]), Some("eval"));
    assert_eq!(values[4], JsonValue::Bool(true));
    assert_eq!(text(&values[5]), Some("MONTHLY"));
    assert_eq!(values[2], JsonValue::Null);
}

#[test]
fn evaluator_test_test_get_val_struct_missing_column_returns_null() {
    let values = evaluator().get_val_struct(&vec!["nonexistent".to_string()]);
    assert_eq!(values[0], JsonValue::Null);
}

#[test]
fn rule_test_test_table_name() {
    assert_eq!(rule().table_name(), "rule");
}

#[test]
fn rule_test_test_get_columns() {
    assert_eq!(
        rule().get_columns(),
        vec!["id", "evaluator_id", "content", "input", "version", "description", "is_active", "created_at", "created_by"]
    );
}

#[test]
fn rule_test_test_get_val_struct() {
    let f = rule();
    let values = f.get_val_struct(&f.get_columns());
    assert_eq!(num(&values[0]), Some(1));
    assert_eq!(num(&values[1]), Some(2));
    assert_eq!(values[2], f.content);
    assert_eq!(values[3], JsonValue::Null);
    assert_eq!(num(&values[4]), Some(3));
    assert_eq!(text(&values[5]), Some("r"));
}

#[test]
fn rule_test_test_get_val_struct_missing_column_returns_null() {
    let values = rule().get_val_struct(&vec!["nonexistent".to_string()]);
    assert_eq!(values[0], JsonValue::Null);
}

#[test]
fn test_model_benefit() {
    assert_eq!(benefit().table_name(), "benefit");
}

#[test]
fn benefit_test_test_get_columns() {
    assert_eq!(
        benefit().get_columns(),
        vec!["id", "evaluator_id", "customer_id", "value", "description", "expired_at", "created_at"]
    );
}

#[test]
fn benefit_test_test_get_val_struct() {
    let f = benefit();
    let values = f.get_val_struct(&f.get_columns());
    assert_eq!(num(&values[0]), Some(1));
    assert_eq!(num(&values[1]), Some(2));
    assert_eq!(num(&values[2]), Some(3));
    assert_eq!(text(&values[4]), Some("test"));
}

#[test]
fn benefit_test_test_get_val_struct_missing_column_returns_null() {
    let values = benefit().get_val_struct(&vec!["nonexistent".to_string()]);
    assert_eq!(values[0], JsonValue::Null);
}

#[test]
fn dates_serialize_as_iso_text() {
    let mut f = evaluator();
    f.created_at = Some(at(2024, 1, 1, 3600));
    let v = f.get_val_struct(&vec!["created_at".to_string()]);
    assert_eq!(text(&v[0]), Some("2024-01-01T01:00:00"));
    let job = JobModel {
        id: 7,
        evaluator_id: 1,
        status: "PROCESSING".to_string(),
        created_at: Some(at(2024, 1, 15, 8 * 3600)),
        updated_at: None,
    };
    assert_eq!(job.table_name(), "job");
    assert_eq!(job.get_columns(), vec!["id", "evaluator_id", "status", "created_at", "updated_at"]);
    let vals = job.get_val_struct(&job.get_columns());
    assert_eq!(num(&vals[0]), Some(7));
    assert_eq!(text(&vals[2]), Some("PROCESSING"));
    assert_eq!(text(&vals[3]), Some("2024-01-15T08:00:00Z"));
    assert_eq!(vals[4], JsonValue::Null);
}

#[test]
fn job_detail_and_file_columns() {
    let d = JobDetailModel {
        id: 1,
        job_id: 2,
        entity: "transaction".to_string(),
        key: "k".to_string(),
        file_start_range: Some(at(2024, 1, 1, 0)),
        file_end_range: None,
    };
    assert_eq!(d.table_name(), "job_detail");
    assert_eq!(d.get_columns(), vec!["id", "job_id", "entity", "key", "file_start_range", "file_end_range"]);
    let v = d.get_val_struct(&vec!["key".to_string(), "file_start_range".to_string()]);
    assert_eq!(text(&v[0]), Some("k"));
    assert_eq!(text(&v[1]), Some("2024-01-01T00:00:00Z"));
    let f = JobFileModel {
        id: 1,
        job_detail_id: 2,
        filename: "a.txt".to_string(),
        status: "COMPLETED".to_string(),
        created_at: None,
        updated_at: None,
    };
    assert_eq!(f.table_name(), "job_file");
    assert_eq!(f.get_columns(), vec!["id", "job_detail_id", "filename", "status", "created_at", "updated_at"]);
    assert_eq!(text(&f.get_val_struct(&vec!["filename".to_string()])[0]), Some("a.txt"));
}

#[test]
fn test_create_model_job() {
    let now = Some(at(2024, 1, 15, 10 * 3600));
    let status = "PROCESSING";

    let model: JobModel = JobModel {
        id: 1,
        evaluator_id: 42,
        status: status.to_string(),
        created_at: now,
        updated_at: now,
    };

    assert_eq!(model.table_name(), "job");
    assert_eq!(model.get_models_map().get("1").unwrap().id, 1);
    assert_eq!(model.get_columns(), vec!["id", "evaluator_id", "status", "created_at", "updated_at"]);
    let vals_proj =
        model.get_val_struct(&vec!["status".to_string(), "evaluator_id".to_string(), "created_at".to_string()]);
    assert_eq!(vals_proj.len(), 3);
    assert_eq!(text(&vals_proj[0]).unwrap(), status);
    assert_eq!(num(&vals_proj[1]).unwrap(), 42);
    assert_eq!(text(&vals_proj[2]), Some("2024-01-15T10:00:00Z"));
}

#[test]
fn test_create_model_detail() {
    let now = Some(at(2024, 1, 1, 0));
    let transaction_entity = "transaction";
    let transaction_key = "transaction_data";

    let model: JobDetailModel = JobDetailModel {
        id: 1,
        job_id: 1,
        entity: transaction_entity.to_string(),
        key: transaction_key.to_string(),
        file_start_range: now,
        file_end_range: now,
    };

    assert_eq!(model.table_name(), "job_detail");
    assert_eq!(model.get_models_map().get("1").unwrap().id, 1);
    assert_eq!(model.get_columns(), vec!["id", "job_id", "entity", "key", "file_start_range", "file_end_range"]);
    let vals_proj = model.get_val_struct(&vec![
        "entity".to_string(),
        "key".to_string(),
        "file_end_range".to_string(),
        "file_start_range".to_string(),
    ]);
    assert_eq!(vals_proj.len(), 4);
    assert_eq!(text(&vals_proj[0]).unwrap(), transaction_entity);
    assert_eq!(text(&vals_proj[1]).unwrap(), transaction_key);
    assert_eq!(text(&vals_proj[2]), Some("2024-01-01T00:00:00Z"));
    assert_eq!(text(&vals_proj[3]), Some("2024-01-01T00:00:00Z"));
}

#[test]
fn test_utc_datetime_sql_type() {
    let utc = at(2024, 2, 10, 15 * 3600 + 30 * 60);
    let model = JobDetailModel {
        id: 1,
        job_id: 1,
        entity: "e".into(),
        key: "k".into(),
        file_start_range: Some(utc),
        file_end_range: None,
    };
    let vals = model.get_val_struct(&vec!["file_start_range".to_string()]);
    assert_eq!(text(&vals[0]), Some("2024-02-10T15:30:00Z"));
    let naive = NaiveDate::from_ymd_opt(2024, 2, 10).unwrap().and_hms_opt(15, 30, 0).unwrap();
    assert_eq!(naive.and_utc().naive_utc(), naive);
}

#[test]
fn test_create_model_file() {
    let now = Some(at(2024, 1, 15, 10 * 3600));
    let filename = "data.parquet";
    let status = "PROCESSING";

    let model: JobFileModel = JobFileModel {
        id: 1,
        job_detail_id: 10,
        filename: filename.to_string(),
        status: status.to_string(),
        created_at: now,
        updated_at: now,
    };

    assert_eq!(model.table_name(), "job_file");
    assert_eq!(model.get_models_map().get("1").unwrap().id, 1);
    assert_eq!(model.get_columns(), vec!["id", "job_detail_id", "filename", "status", "created_at", "updated_at"]);
    let vals_proj = model.get_val_struct(&vec![
        "filename".to_string(),
        "status".to_string(),
        "created_at".to_string(),
        "job_detail_id".to_string(),
    ]);
    assert_eq!(vals_proj.len(), 4);
    assert_eq!(text(&vals_proj[0]).unwrap(), filename);
    assert_eq!(text(&vals_proj[1]).unwrap(), status);
    assert_eq!(text(&vals_proj[2]), Some("2024-01-15T10:00:00Z"));
    assert_eq!(num(&vals_proj[3]).unwrap(), 10);
}

#[test]
fn models_map_files_the_row_under_its_id() {
    let b = benefit();
    let m = b.get_models_map();
    assert_eq!(m.len(), 1);
    assert!(m.get("2").is_none());
    assert_eq!(m.get(&b.id.to_string()).unwrap().customer_id, b.customer_id);
    let rows = rule().get_models();
    assert_eq!(rows.len(), 1);
    assert_eq!(rows[0].id, rule().id);
    let e = evaluator().get_models_map();
    assert_eq!(e.get(&evaluator().id.to_string()).unwrap().name, evaluator().name);
    let neg = BenefitModel { id: -5, ..benefit() };
    assert!(neg.get_models_map().get("-5").is_some());
}

fn rule_fixture() -> RuleModel {
    RuleModel {
        id: 1,
        evaluator_id: 2,
        content: JsonValue::Object(JsonMembers::Cons(
            "key".to_string(),
            Box::new(JsonValue::Str("value".to_string())),
            Box::new(JsonMembers::Nil),
        )),
        input: JsonValue::Object(JsonMembers::Cons(
            "in".to_string(),
            Box::new(JsonValue::Number(JsonNumber::PosInt(1))),
            Box::new(JsonMembers::Nil),
        )),
        version: Some(1),
        description: Some("test".to_string()),
        is_active: true,
        created_at: None,
        created_by: None,
    }
}

#[test]
fn benefit_test_test_get_models() {
    let models = benefit().get_models();
    assert_eq!(models.len(), 1);
    assert_eq!(models[0].id, 1);
}

#[test]
fn benefit_test_test_get_models_map() {
    let map = benefit().get_models_map();
    assert_eq!(map.len(), 1);
    assert!(map.contains_key("1"));
    assert_eq!(map.get("1").unwrap().customer_id, 3);
}

#[test]
fn evaluator_test_test_get_models() {
    let models = evaluator().get_models();
    assert_eq!(models.len(), 1);
    assert_eq!(models[0].id, 1);
}

#[test]
fn evaluator_test_test_get_models_map() {
    let map = evaluator().get_models_map();
    assert_eq!(map.len(), 1);
    assert!(map.contains_key("1"));
    assert_eq!(map.get("1").unwrap().name, "eval");
}

#[test]
fn rule_test_test_get_models() {
    let models = rule_fixture().get_models();
    assert_eq!(models.len(), 1);
    assert_eq!(models[0].id, 1);
}

#[test]
fn rule_test_test_get_models_map() {
    let map = rule_fixture().get_models_map();
    assert_eq!(map.len(), 1);
    assert!(map.contains_key("1"));
    assert_eq!(map.get("1").unwrap().evaluator_id, 2);
}

fn cashback_value() -> JsonValue {
    let item = JsonValue::Object(JsonMembers::Cons(
        "type".to_string(),
        Box::new(JsonValue::Str("CASHBACK".to_string())),
        Box::new(JsonMembers::Cons(
            "amount".to_string(),
            Box::new(JsonValue::Number(JsonNumber::PosInt(10000000))),
            Box::new(JsonMembers::Nil),
        )),
    ));
    JsonValue::Object(JsonMembers::Cons(
        "benefits".to_string(),
        Box::new(JsonValue::Array(JsonList::Cons(Box::new(item), Box::new(JsonList::Nil)))),
        Box::new(JsonMembers::Nil),
    ))
}

#[test]
fn value_not_parsed() {
    let benefit = BenefitModel {
        id: 1,
        evaluator_id: 1,
        customer_id: 42,
        value: Some(cashback_value()),
        description: Some("test".to_string()),
        expired_at: None,
        created_at: Some(at(2024, 1, 1, 0)),
    };
    let values = benefit.get_val_struct(&vec!["value".to_string()]);
    assert_eq!(values[0], cashback_value());
}
