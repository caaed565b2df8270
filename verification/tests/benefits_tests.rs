use benefit_engine::benefits::{benefits_step, BenefitsAction, BenefitsEvent, BenefitsPhase, BenefitsState};
use benefit_engine::models::BenefitModel;
use benefit_engine::presentation::{HttpStatus, TtlCache};

fn row(id: i64, evaluator_id: i64) -> BenefitModel {
    BenefitModel {
        id,
        evaluator_id,
        customer_id: 7,
        value: None,
        description: None,
        expired_at: None,
        created_at: None,
    }
}

fn fresh() -> BenefitsState {
    BenefitsState { cache: TtlCache::new(), ttl_ms: 60_000, phase: BenefitsPhase::Idle }
}

fn ids(a: &BenefitsAction) -> Vec<i64> {
    match a {
        BenefitsAction::Answer(Ok(rows)) => rows.iter().map(|r| r.id).collect(),
        _ => panic!("not an answer with rows"),
    }
}

#[test]
fn with_evaluator_checks_then_queries_then_caches() {
    let (s, a) = benefits_step(7, Some(3), fresh(), BenefitsEvent::Start, 1_000);
    assert!(matches!(a, BenefitsAction::CheckEvaluator(3)));
    let (s, a) = benefits_step(7, Some(3), s, BenefitsEvent::Checked(Ok(())), 1_000);
    match a {
        BenefitsAction::Query { sql, evaluator_id } => {
            assert!(sql.contains("customer_id = ? AND evaluator_id = ?"));
            assert_eq!(evaluator_id, Some(3));
        }
        _ => panic!("expected a query"),
    }
    let (s, a) = benefits_step(7, Some(3), s, BenefitsEvent::Fetched(Ok(vec![row(1, 3), row(2, 3)])), 1_000);
    assert_eq!(ids(&a), vec![1, 2]);
    assert!(matches!(s.phase, BenefitsPhase::Idle));
    // A second request within the time to live is answered from the cache.
    let (s, a) = benefits_step(7, Some(3), s, BenefitsEvent::Start, 30_000);
    assert_eq!(ids(&a), vec![1, 2]);
    // After it the evaluator is checked again.
    let (_, a) = benefits_step(7, Some(3), s, BenefitsEvent::Start, 61_000);
    assert!(matches!(a, BenefitsAction::CheckEvaluator(3)));
}

#[test]
fn refused_evaluator_is_the_answer() {
    let (s, _) = benefits_step(7, Some(3), fresh(), BenefitsEvent::Start, 0);
    let refusal = Err((HttpStatus::Forbidden, "evaluator 3 is not active".to_string()));
    let (s, a) = benefits_step(7, Some(3), s, BenefitsEvent::Checked(refusal), 0);
    match a {
        BenefitsAction::Answer(Err((st, m))) => {
            assert_eq!(st, HttpStatus::Forbidden);
            assert_eq!(m, "evaluator 3 is not active");
        }
        _ => panic!("expected the refusal"),
    }
    // Nothing was cached: the next request checks again.
    let (_, a) = benefits_step(7, Some(3), s, BenefitsEvent::Start, 1);
    assert!(matches!(a, BenefitsAction::CheckEvaluator(3)));
}

#[test]
fn without_evaluator_keeps_rows_of_valid_evaluators() {
    let (s, a) = benefits_step(7, None, fresh(), BenefitsEvent::Start, 0);
    match a {
        BenefitsAction::Query { sql, evaluator_id } => {
            assert!(sql.contains("WHERE customer_id = ? AND created_at >= CURDATE()"));
            assert_eq!(evaluator_id, None);
        }
        _ => panic!("expected a query"),
    }
    let (s, a) = benefits_step(7, None, s, BenefitsEvent::Fetched(Ok(vec![row(1, 3), row(2, 4), row(3, 3)])), 0);
    match &a {
        BenefitsAction::CheckEach(e) => assert_eq!(e, &vec![3, 4, 3]),
        _ => panic!("expected the evaluators to check"),
    }
    let (s, a) = benefits_step(7, None, s, BenefitsEvent::Validities(vec![true, false, true]), 0);
    assert_eq!(ids(&a), vec![1, 3]);
    let (_, a) = benefits_step(7, None, s, BenefitsEvent::Start, 10);
    assert_eq!(ids(&a), vec![1, 3]);
}

#[test]
fn failed_query_answers_internal_error() {
    let (s, _) = benefits_step(7, None, fresh(), BenefitsEvent::Start, 0);
    let (s, a) = benefits_step(7, None, s, BenefitsEvent::Fetched(Err("connection reset".to_string())), 0);
    match a {
        BenefitsAction::Answer(Err((st, m))) => {
            assert_eq!(st, HttpStatus::InternalServerError);
            assert_eq!(st.code(), 500);
            assert_eq!(m, "failed to fetch benefits: connection reset");
        }
        _ => panic!("expected an error"),
    }
    assert!(matches!(s.phase, BenefitsPhase::Idle));
}

#[test]
fn unreadable_row_is_the_answer() {
    let (s, _) = benefits_step(7, None, fresh(), BenefitsEvent::Start, 0);
    let (_, a) = benefits_step(
        7,
        None,
        s,
        BenefitsEvent::Failed(HttpStatus::InternalServerError, "failed to parse id: x".to_string()),
        0,
    );
    assert!(matches!(a, BenefitsAction::Answer(Err((HttpStatus::InternalServerError, _)))));
}
