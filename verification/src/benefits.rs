//! Answering `GET /benefits` as a conversation with the outside: a cached
//! answer is given at once; otherwise the evaluator asked for is checked,
//! today's benefits are read, the ones of invalid evaluators dropped, and the
//! answer cached. The database work is the caller's; each step says what to
//! do next.

use vstd::prelude::*;
use std::rc::Rc;
use crate::models::BenefitModel;
use crate::presentation::{
    BenefitKey, HttpStatus, TtlCache, benefits_today_sql, benefits_by_customer_sql,
    benefits_by_customer_and_evaluator_sql, keep_flagged, kept, live_map,
};
use crate::text::push_str;

verus! {

/// Where a request stands.
pub enum BenefitsPhase {
    /// No request in progress.
    Idle,
    /// Waiting for the validity check of the evaluator asked for.
    AwaitCheck,
    /// Waiting for the rows of the query.
    AwaitRows,
    /// Waiting for the validity of each row's evaluator.
    AwaitValidities(Vec<BenefitModel>),
}

/// The cache of answers, how long an answer is kept, and the request in
/// progress.
pub struct BenefitsState {
    pub cache: TtlCache<BenefitKey, Rc<Vec<BenefitModel>>>,
    pub ttl_ms: u64,
    pub phase: BenefitsPhase,
}

/// What the outside reports.
pub enum BenefitsEvent {
    /// The request arrives.
    Start,
    /// The outcome of the validity check asked for by `CheckEvaluator`.
    Checked(Result<(), (HttpStatus, String)>),
    /// The rows of the query, or the database's error text.
    Fetched(Result<Vec<BenefitModel>, String>),
    /// A row could not be read; the answer is this error.
    Failed(HttpStatus, String),
    /// For each row handed out by `CheckEach`, whether its evaluator is valid.
    Validities(Vec<bool>),
}

/// What to do next.
pub enum BenefitsAction {
    /// Answer the request.
    Answer(Result<Rc<Vec<BenefitModel>>, (HttpStatus, String)>),
    /// Check whether this evaluator is valid now.
    CheckEvaluator(i64),
    /// Run this query, with the customer bound and then the evaluator when
    /// one is given.
    Query { sql: &'static str, evaluator_id: Option<i64> },
    /// Check the evaluator of each of these rows, in order.
    CheckEach(Vec<i64>),
}

/// Which events a phase waits for.
pub open spec fn benefits_expects(evaluator_id: Option<i64>, phase: BenefitsPhase, event: BenefitsEvent) -> bool {
    match phase {
        BenefitsPhase::Idle => event is Start,
        BenefitsPhase::AwaitCheck => evaluator_id is Some && (event is Checked || event is Failed),
        BenefitsPhase::AwaitRows => event is Fetched || event is Failed,
        BenefitsPhase::AwaitValidities(rows) => match event {
            BenefitsEvent::Validities(flags) => flags@.len() == rows@.len(),
            BenefitsEvent::Failed(_, _) => true,
            _ => false,
        },
    }
}

/// The cache after an answer is stored: the answer kept until `now + ttl`,
/// then whatever has expired at `now` forgotten.
pub open spec fn cache_after_store(
    before: Map<BenefitKey, (Rc<Vec<BenefitModel>>, u64)>,
    key: BenefitKey,
    answer: Rc<Vec<BenefitModel>>,
    now: u64,
    ttl: u64,
) -> Map<BenefitKey, (Rc<Vec<BenefitModel>>, u64)> {
    live_map(before.insert(key, (answer, (now + ttl) as u64)), now)
}

/// The action answers with these rows.
pub open spec fn answers_with(a: BenefitsAction, rows: Vec<BenefitModel>) -> bool {
    match a {
        BenefitsAction::Answer(Ok(x)) => *x == rows,
        _ => false,
    }
}

/// The action answers with this error.
pub open spec fn refuses_with(a: BenefitsAction, st: HttpStatus, m: Seq<char>) -> bool {
    match a {
        BenefitsAction::Answer(Err((s2, m2))) => s2 == st && m2@ == m,
        _ => false,
    }
}

/// The action runs this query with this evaluator bound.
pub open spec fn queries(a: BenefitsAction, sql: Seq<char>, evaluator_id: Option<i64>) -> bool {
    match a {
        BenefitsAction::Query { sql: q, evaluator_id: e } => q@ == sql && e == evaluator_id,
        _ => false,
    }
}

/// The action checks these evaluators, in order.
pub open spec fn checks_each(a: BenefitsAction, ids: Seq<i64>) -> bool {
    match a {
        BenefitsAction::CheckEach(v) => v@ == ids,
        _ => false,
    }
}

/// The evaluator of each row, in order.
pub open spec fn evaluator_ids(rows: Seq<BenefitModel>) -> Seq<i64> {
    rows.map_values(|b: BenefitModel| b.evaluator_id)
}

/// The same answer, shared (`Rc::clone`).
#[verifier::external_body]
fn share(r: &Rc<Vec<BenefitModel>>) -> (s: Rc<Vec<BenefitModel>>)
    ensures
        *s == **r,
{
    Rc::clone(r)
}

fn evaluator_ids_of(rows: &Vec<BenefitModel>) -> (r: Vec<i64>)
    ensures
        r@ == evaluator_ids(rows@),
{
    let mut out: Vec<i64> = Vec::new();
    let mut i: usize = 0;
    while i < rows.len()
        invariant
            i <= rows@.len(),
            out@ == evaluator_ids(rows@.take(i as int)),
        decreases rows.len() - i,
    {
        out.push(rows[i].evaluator_id);
        assert(evaluator_ids(rows@.take(i + 1)) =~= evaluator_ids(rows@.take(i as int)).push(rows@[i as int].evaluator_id));
        i = i + 1;
    }
    assert(rows@.take(rows@.len() as int) =~= rows@);
    out
}

/// Stores an answer, forgets what has expired, and answers with it.
fn store_and_answer(
    cache: TtlCache<BenefitKey, Rc<Vec<BenefitModel>>>,
    ttl_ms: u64,
    key: BenefitKey,
    rows: Vec<BenefitModel>,
    now_ms: u64,
) -> (r: (BenefitsState, BenefitsAction))
    requires
        cache.wf(),
        now_ms + ttl_ms <= u64::MAX,
    ensures
        r.0.cache.wf(),
        r.0.ttl_ms == ttl_ms,
        r.0.phase is Idle,
        r.0.cache.view() == cache_after_store(cache.view(), key, Rc::new(rows), now_ms, ttl_ms),
        answers_with(r.1, rows),
{
    let answer = Rc::new(rows);
    let mut cache = cache;
    cache.insert(key, share(&answer), now_ms, ttl_ms);
    cache.evict_expired(now_ms);
    (BenefitsState { cache, ttl_ms, phase: BenefitsPhase::Idle }, BenefitsAction::Answer(Ok(answer)))
}

/// One step of answering `GET /benefits` for `customer_id` and, if given,
/// `evaluator_id`, at time `now_ms` of the cache's clock:
/// - on arrival, a cached answer that has not expired is given at once;
///   otherwise the evaluator asked for is checked first, or, with none, the
///   customer's benefits of today are queried;
/// - a refused check is the answer; a passed one queries the customer's
///   benefits of today from that evaluator;
/// - a failed query is answered with status 500 and "failed to fetch
///   benefits: " and the database's text;
/// - with an evaluator, the rows are the answer; without, each row's
///   evaluator is checked and only the rows whose evaluator is valid are
///   the answer;
/// - an answer drawn from rows is cached for `ttl_ms`, and what has expired
///   is forgotten.
pub fn benefits_step(
    customer_id: i64,
    evaluator_id: Option<i64>,
    state: BenefitsState,
    event: BenefitsEvent,
    now_ms: u64,
) -> (r: (BenefitsState, BenefitsAction))
    requires
        state.cache.wf(),
        now_ms + state.ttl_ms <= u64::MAX,
        benefits_expects(evaluator_id, state.phase, event),
    ensures
        r.0.cache.wf(),
        r.0.ttl_ms == state.ttl_ms,
        ({
            let key = BenefitKey { customer_id, evaluator_id };
            let cache = state.cache.view();
            let ttl = state.ttl_ms;
            match (state.phase, event) {
                (BenefitsPhase::Idle, _) => match state.cache.lookup(key, now_ms) {
                    Some(a) => r.0.phase is Idle && r.0.cache.view() == cache && answers_with(r.1, *a),
                    None => r.0.cache.view() == cache && match evaluator_id {
                        Some(eid) => r.0.phase is AwaitCheck && r.1 == BenefitsAction::CheckEvaluator(eid),
                        None => r.0.phase is AwaitRows && queries(r.1, benefits_by_customer_sql(), None),
                    },
                },
                (_, BenefitsEvent::Failed(st, m)) => r.0.phase is Idle && r.0.cache.view() == cache
                    && refuses_with(r.1, st, m@),
                (BenefitsPhase::AwaitCheck, BenefitsEvent::Checked(Err((st, m)))) => r.0.phase is Idle
                    && r.0.cache.view() == cache && refuses_with(r.1, st, m@),
                (BenefitsPhase::AwaitCheck, BenefitsEvent::Checked(Ok(()))) => r.0.phase is AwaitRows
                    && r.0.cache.view() == cache && queries(
                    r.1,
                    benefits_by_customer_and_evaluator_sql(),
                    evaluator_id,
                ),
                (BenefitsPhase::AwaitRows, BenefitsEvent::Fetched(Err(e))) => r.0.phase is Idle
                    && r.0.cache.view() == cache && refuses_with(
                    r.1,
                    HttpStatus::InternalServerError,
                    "failed to fetch benefits: "@ + e@,
                ),
                (BenefitsPhase::AwaitRows, BenefitsEvent::Fetched(Ok(rows))) => match evaluator_id {
                    Some(_) => r.0.phase is Idle && r.0.cache.view() == cache_after_store(
                        cache,
                        key,
                        Rc::new(rows),
                        now_ms,
                        ttl,
                    ) && answers_with(r.1, rows),
                    None => r.0.phase == BenefitsPhase::AwaitValidities(rows) && r.0.cache.view() == cache
                        && checks_each(r.1, evaluator_ids(rows@)),
                },
                (BenefitsPhase::AwaitValidities(rows), BenefitsEvent::Validities(flags)) => r.0.phase is Idle
                    && (exists|kept_rows: Vec<BenefitModel>|
                    #![trigger answers_with(r.1, kept_rows)]
                    kept_rows@ == kept(rows@, flags@) && r.0.cache.view() == cache_after_store(
                        cache,
                        key,
                        Rc::new(kept_rows),
                        now_ms,
                        ttl,
                    ) && answers_with(r.1, kept_rows)),
                _ => false,
            }
        }),
{
    let key = BenefitKey { customer_id, evaluator_id };
    let BenefitsState { cache, ttl_ms, phase } = state;
    match phase {
        BenefitsPhase::Idle => {
            let hit = match cache.get(&key, now_ms) {
                Some(a) => Some(share(a)),
                None => None,
            };
            match hit {
                Some(a) => (BenefitsState { cache, ttl_ms, phase: BenefitsPhase::Idle }, BenefitsAction::Answer(Ok(a))),
                None => match evaluator_id {
                    Some(eid) => (
                        BenefitsState { cache, ttl_ms, phase: BenefitsPhase::AwaitCheck },
                        BenefitsAction::CheckEvaluator(eid),
                    ),
                    None => (
                        BenefitsState { cache, ttl_ms, phase: BenefitsPhase::AwaitRows },
                        BenefitsAction::Query { sql: benefits_today_sql(false), evaluator_id: None },
                    ),
                },
            }
        },
        BenefitsPhase::AwaitCheck => match event {
            BenefitsEvent::Checked(Ok(())) => (
                BenefitsState { cache, ttl_ms, phase: BenefitsPhase::AwaitRows },
                BenefitsAction::Query { sql: benefits_today_sql(true), evaluator_id },
            ),
            BenefitsEvent::Checked(Err(e)) => (
                BenefitsState { cache, ttl_ms, phase: BenefitsPhase::Idle },
                BenefitsAction::Answer(Err(e)),
            ),
            BenefitsEvent::Failed(st, m) => (
                BenefitsState { cache, ttl_ms, phase: BenefitsPhase::Idle },
                BenefitsAction::Answer(Err((st, m))),
            ),
            // `benefits_expects` rules out any other event here.
            _ => (BenefitsState { cache, ttl_ms, phase: BenefitsPhase::Idle }, BenefitsAction::CheckEach(Vec::new())),
        },
        BenefitsPhase::AwaitRows => match event {
            BenefitsEvent::Fetched(Err(e)) => {
                let mut m = "failed to fetch benefits: ".to_owned();
                push_str(&mut m, e.as_str());
                (
                    BenefitsState { cache, ttl_ms, phase: BenefitsPhase::Idle },
                    BenefitsAction::Answer(Err((HttpStatus::InternalServerError, m))),
                )
            },
            BenefitsEvent::Fetched(Ok(rows)) => match evaluator_id {
                Some(_) => store_and_answer(cache, ttl_ms, key, rows, now_ms),
                None => {
                    let ids = evaluator_ids_of(&rows);
                    (
                        BenefitsState { cache, ttl_ms, phase: BenefitsPhase::AwaitValidities(rows) },
                        BenefitsAction::CheckEach(ids),
                    )
                },
            },
            BenefitsEvent::Failed(st, m) => (
                BenefitsState { cache, ttl_ms, phase: BenefitsPhase::Idle },
                BenefitsAction::Answer(Err((st, m))),
            ),
            // `benefits_expects` rules out any other event here.
            _ => (BenefitsState { cache, ttl_ms, phase: BenefitsPhase::Idle }, BenefitsAction::CheckEach(Vec::new())),
        },
        BenefitsPhase::AwaitValidities(rows) => match event {
            BenefitsEvent::Validities(flags) => {
                let ghost all_rows = rows@;
                let kept_rows = keep_flagged(rows, &flags);
                let ghost witness = kept_rows;
                let r = store_and_answer(cache, ttl_ms, key, kept_rows, now_ms);
                assert(witness@ == kept(all_rows, flags@));
                r
            },
            BenefitsEvent::Failed(st, m) => (
                BenefitsState { cache, ttl_ms, phase: BenefitsPhase::Idle },
                BenefitsAction::Answer(Err((st, m))),
            ),
            // `benefits_expects` rules out any other event here.
            _ => (BenefitsState { cache, ttl_ms, phase: BenefitsPhase::Idle }, BenefitsAction::CheckEach(Vec::new())),
        },
    }
}

/// Law: an answer that a step stored is what a later request for the same
/// customer and evaluator is answered with, from the cache, until `ttl_ms`
/// after it was stored, and no longer from then on.
pub proof fn law_stored_answer_is_served(
    before: TtlCache<BenefitKey, Rc<Vec<BenefitModel>>>,
    after: TtlCache<BenefitKey, Rc<Vec<BenefitModel>>>,
    key: BenefitKey,
    answer: Rc<Vec<BenefitModel>>,
    now_ms: u64,
    ttl_ms: u64,
)
    requires
        now_ms + ttl_ms <= u64::MAX,
        after.view() == cache_after_store(before.view(), key, answer, now_ms, ttl_ms),
    ensures
        forall|t: u64| now_ms <= t ==> after.lookup(key, t) == (if t < now_ms + ttl_ms { Some(answer) } else { None }),
{
}

} // verus!
