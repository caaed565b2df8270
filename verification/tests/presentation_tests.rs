use benefit_engine::evaluator::skips_zero_customer;
use benefit_engine::presentation::{
    api_timeout_ms, benefit_cache_ttl_ms, benefits_today_sql, check_evaluator_valid, evaluator_cache_ttl_ms,
    keep_flagged, parse_benefit_timestamp, setting_ms, BenefitKey, EvaluatorRow, GetBenefitParams, HttpStatus,
    TtlCache,
};
use benefit_engine::time::UtcTime;
use chrono::{Datelike, NaiveDate};

fn at(y: i32, m: u32, d: u32, h: u32) -> UtcTime {
    UtcTime { day: NaiveDate::from_ymd_opt(y, m, d).unwrap().num_days_from_ce(), secs: h * 3600, nanos: 0 }
}

fn row(active: bool, start: Option<UtcTime>, end: Option<UtcTime>) -> EvaluatorRow {
    EvaluatorRow { is_active: active, start_valid_date: start, end_valid_date: end }
}

fn valid(active: bool, start: Option<UtcTime>, end: Option<UtcTime>, now: UtcTime) -> bool {
    check_evaluator_valid(1, Some(row(active, start, end)), now).is_ok()
}

#[derive(Debug, Clone, PartialEq)]
struct Cached {
    id: i64,
    customer_id: i64,
}

#[test]
fn valid_date_check_is_active() {
    let now = at(2026, 9, 20, 12);
    assert!(!valid(false, None, None, now));
    assert!(valid(true, None, None, now));
}

#[test]
fn valid_date_check_start_end() {
    let now = at(2026, 9, 20, 12);
    let past = at(2026, 9, 19, 12);
    let future = at(2026, 9, 21, 12);
    assert!(!valid(true, Some(future), None, now));
    assert!(!valid(true, None, Some(past), now));
    assert!(valid(true, Some(past), Some(future), now));
    assert!(valid(true, Some(past), None, now));
    assert!(valid(true, None, Some(future), now));
    assert!(valid(true, Some(now), Some(now), now));
}

#[test]
fn validity_errors_carry_status_and_message() {
    let now = at(2026, 9, 20, 12);
    let (st, m) = check_evaluator_valid(7, None, now).unwrap_err();
    assert_eq!((st, st.code(), m.as_str()), (HttpStatus::NotFound, 404, "evaluator 7 not found"));
    let (st, m) = check_evaluator_valid(7, Some(row(false, None, None)), now).unwrap_err();
    assert_eq!((st, st.code(), m.as_str()), (HttpStatus::Forbidden, 403, "evaluator 7 is not active"));
    let (_, m) = check_evaluator_valid(7, Some(row(true, Some(at(2026, 9, 21, 0)), None)), now).unwrap_err();
    assert_eq!(m, "evaluator 7 not yet valid: now 2026-09-20 12:00:00 < start_valid_date 2026-09-21 00:00:00");
    let (_, m) = check_evaluator_valid(7, Some(row(true, None, Some(at(2026, 9, 19, 0)))), now).unwrap_err();
    assert_eq!(m, "evaluator 7 expired: now 2026-09-20 12:00:00 > end_valid_date 2026-09-19 00:00:00");
    assert_eq!(HttpStatus::InternalServerError.code(), 500);
    assert_eq!(HttpStatus::RequestTimeout.code(), 408);
}

#[test]
fn created_at_today_sql_uses_range() {
    let sql = benefits_today_sql(false);
    assert!(sql.contains("created_at >= CURDATE()"));
    assert!(sql.contains("CURDATE() + INTERVAL 1 DAY"));
    assert!(sql.contains("customer_id = ?"));
    assert!(!sql.contains("evaluator_id = ?"));
    let with_eval = benefits_today_sql(true);
    assert!(with_eval.contains("customer_id = ? AND evaluator_id = ?"));
    assert!(with_eval.contains("created_at < CURDATE() + INTERVAL 1 DAY"));
}

#[test]
fn evaluator_api_timeout_default_is_50ms() {
    assert_eq!(api_timeout_ms(None), 500);
}

#[test]
fn evaluator_api_timeout_respects_env() {
    assert_eq!(api_timeout_ms(Some("123")), 123);
    assert_eq!(api_timeout_ms(None), 500);
    assert_eq!(api_timeout_ms(Some("12x")), 500);
    assert_eq!(setting_ms(Some("7"), 1), 7);
}

#[test]
fn customer_id_not_zero_when_transaction_exists_logic() {
    let has_transaction = true;
    let customers_empty = true;
    assert!(skips_zero_customer(has_transaction, customers_empty), "should skip 0-customer when transaction exists");
    let has_transaction = false;
    assert!(!skips_zero_customer(has_transaction, customers_empty));
}

#[test]
fn benefit_cache_hit_and_miss() {
    let mut cache: TtlCache<BenefitKey, Vec<Cached>> = TtlCache::new();
    let key = BenefitKey { customer_id: 99991, evaluator_id: Some(1) };
    let now = 1_000;
    let ttl = benefit_cache_ttl_ms(None);
    assert!(cache.get(&key, now).is_none());
    cache.insert(key, vec![Cached { id: 1, customer_id: 99991 }], now, ttl);
    let hit = cache.get(&key, now);
    assert!(hit.is_some());
    let hit_val = hit.unwrap();
    assert_eq!(hit_val.len(), 1);
    assert_eq!(hit_val[0].customer_id, 99991);
    assert!(cache.get(&BenefitKey { customer_id: 99991, evaluator_id: Some(2) }, now).is_none());
    assert!(cache.get(&BenefitKey { customer_id: 99991, evaluator_id: None }, now).is_none());
    cache.clear();
    assert!(cache.get(&key, now).is_none());
}

#[test]
fn benefit_cache_expires_after_ttl() {
    let mut cache: TtlCache<BenefitKey, Vec<Cached>> = TtlCache::new();
    let ttl = benefit_cache_ttl_ms(Some("50"));
    let key = BenefitKey { customer_id: 99992, evaluator_id: Some(1) };
    cache.insert(key, vec![Cached { id: 2, customer_id: 99992 }], 1_000, ttl);
    assert!(cache.get(&key, 1_000).is_some());
    assert!(cache.get(&key, 1_049).is_some());
    assert!(cache.get(&key, 1_080).is_none());
}

#[test]
fn evaluator_validity_cache_hit_and_expiry() {
    let mut cache: TtlCache<i64, Result<(), (HttpStatus, String)>> = TtlCache::new();
    let ttl = evaluator_cache_ttl_ms(None);
    assert!(cache.get(&99993, 0).is_none());
    cache.insert(99993, Ok(()), 0, ttl);
    let cached = cache.get(&99993, 0);
    assert!(cached.is_some());
    assert!(cached.unwrap().is_ok());
    cache.insert(99994, Err((HttpStatus::NotFound, "evaluator 99994 not found".into())), 0, ttl);
    let cached_err = cache.get(&99994, 0);
    assert!(cached_err.is_some());
    assert_eq!(cached_err.unwrap().as_ref().unwrap_err().0, HttpStatus::NotFound);
    let short = evaluator_cache_ttl_ms(Some("50"));
    cache.insert(99995, Ok(()), 100, short);
    assert!(cache.get(&99995, 180).is_none());
}

#[test]
fn benefit_cache_ttl_defaults() {
    assert_eq!(benefit_cache_ttl_ms(None), 30_000);
    assert_eq!(evaluator_cache_ttl_ms(None), 60_000);
    assert_eq!(benefit_cache_ttl_ms(Some("12345")), 12345);
    assert_eq!(benefit_cache_ttl_ms(None), 30_000);
}

#[test]
fn benefit_cache_separate_keys_isolated() {
    let mut cache: TtlCache<BenefitKey, Vec<Cached>> = TtlCache::new();
    let key1 = BenefitKey { customer_id: 1001, evaluator_id: Some(1) };
    let key2 = BenefitKey { customer_id: 1001, evaluator_id: None };
    cache.insert(key1, vec![Cached { id: 10, customer_id: 1001 }], 0, 30_000);
    cache.insert(key2, vec![Cached { id: 11, customer_id: 1001 }], 0, 30_000);
    assert_eq!(cache.get(&key1, 5).unwrap()[0].id, 10);
    assert_eq!(cache.get(&key2, 5).unwrap()[0].id, 11);
    cache.insert(key1, vec![Cached { id: 12, customer_id: 1001 }], 10, 30_000);
    assert_eq!(cache.get(&key1, 20).unwrap()[0].id, 12);
    assert_eq!(cache.get(&key2, 20).unwrap()[0].id, 11);
}

#[test]
fn evict_expired_keeps_live_entries() {
    let mut cache: TtlCache<i64, u32> = TtlCache::new();
    cache.insert(1, 10, 0, 100);
    cache.insert(2, 20, 0, 500);
    cache.evict_expired(200);
    assert!(cache.get(&1, 50).is_none());
    assert_eq!(cache.get(&2, 300), Some(&20));
}

#[test]
fn keep_flagged_keeps_order() {
    assert_eq!(keep_flagged(vec![1, 2, 3, 4], &vec![true, false, true, false]), vec![1, 3]);
    assert_eq!(keep_flagged::<u8>(vec![], &vec![]), Vec::<u8>::new());
}

#[test]
fn benefit_timestamps() {
    let d = NaiveDate::from_ymd_opt(2026, 9, 20).unwrap().num_days_from_ce();
    assert_eq!(parse_benefit_timestamp("2026-09-20 01:00:00", false), Some(UtcTime { day: d, secs: 3600, nanos: 0 }));
    assert_eq!(parse_benefit_timestamp("2026-09-20T01:00:00", false), None);
    assert_eq!(parse_benefit_timestamp("2026-09-20T01:00:00", true), Some(UtcTime { day: d, secs: 3600, nanos: 0 }));
    assert_eq!(
        parse_benefit_timestamp("2026-09-20 01:00:00.25", true),
        Some(UtcTime { day: d, secs: 3600, nanos: 250_000_000 })
    );
    let p = GetBenefitParams { customer_id: 1, evaluator_id: None };
    assert_eq!(p.customer_id, 1);
}
