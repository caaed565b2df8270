use benefit_engine::evaluator::build_zen_input;
use benefit_engine::json::{JsonMembers, JsonNumber, JsonValue};
use benefit_engine::coordinator::{Coordinator, CoordinatorConfig, CoordinatorError, TaskState};
use benefit_engine::messages::SubmitJobRequest;
use benefit_engine::reduced::{completion_plan, decode_reduce_bytes, read_reduced_for_job, ReducedError};

fn test_config() -> CoordinatorConfig {
    CoordinatorConfig {
        host: "127.0.0.1".to_string(),
        port: 0,
        initial_worker_id: 0,
        initial_job_id: 0,
        task_timeout_secs: 7,
        coordinator_startup_ms: 1000,
    }
}

fn request(files: Vec<&str>, n_reduce: u32, evaluator_id: u64, ingestion_job_id: u64) -> SubmitJobRequest {
    SubmitJobRequest {
        files: files.into_iter().map(|f| f.to_string()).collect(),
        output_dir: "/tmp".to_string(),
        app: "app".to_string(),
        n_reduce,
        key: "".to_string(),
        entity: "".to_string(),
        evaluator_id,
        ingestion_job_id,
    }
}

/// The reduce-file encoding: key and a 32-byte value (sum, count, 0, 0 as
/// big-endian `u64`s), each behind its little-endian `u32` length.
fn encode(pairs: &[(&str, u64, u64)]) -> Vec<u8> {
    let mut buf = Vec::new();
    for (k, sum, count) in pairs {
        let kb = k.as_bytes();
        buf.extend_from_slice(&(kb.len() as u32).to_le_bytes());
        buf.extend_from_slice(kb);
        let mut val = Vec::with_capacity(32);
        val.extend_from_slice(&sum.to_be_bytes());
        val.extend_from_slice(&count.to_be_bytes());
        val.extend_from_slice(&0u64.to_be_bytes());
        val.extend_from_slice(&0u64.to_be_bytes());
        buf.extend_from_slice(&(val.len() as u32).to_le_bytes());
        buf.extend_from_slice(&val);
    }
    buf
}

#[test]
fn poll_job_not_found_for_unknown_id() {
    let coord = Coordinator::new(&test_config());
    let res = coord.poll_job(999);
    assert!(res.is_err());
    assert_eq!(res.unwrap_err(), CoordinatorError::JobNotFound);
}

#[test]
fn poll_job_returns_pending_job_with_id_zero_and_defaults() {
    let mut coord = Coordinator::new(&test_config());
    let mut req = request(vec!["data/transaction/transaction20260914.txt"], 1, 1, 100);
    req.output_dir = "/tmp/out".to_string();
    req.app = "test".to_string();
    let job_id = coord.submit_job(req);
    assert_eq!(job_id, 0);
    let reply = coord.poll_job(0).expect("poll should succeed for existing job");
    assert_eq!(reply.id, 0);
    assert_eq!(reply.done, false);
    assert_eq!(reply.failed, false);
    assert!(reply.errors.is_empty());
}

#[test]
fn submit_then_poll_reflects_job_lifecycle() {
    let mut coord = Coordinator::new(&test_config());
    assert_eq!(coord.poll_job(0).unwrap_err(), CoordinatorError::JobNotFound);
    for expected_id in [0u32, 1] {
        let id = coord.submit_job(request(vec!["f"], 1, 99, expected_id as u64 + 10));
        assert_eq!(id, expected_id);
    }
    for job_id in [0, 1] {
        let reply = coord.poll_job(job_id).unwrap();
        assert_eq!(reply.id, job_id);
        assert_eq!(reply.done, false);
    }
}

#[test]
fn submit_job_stores_evaluator_and_ingestion_ids() {
    let mut coord = Coordinator::new(&test_config());
    let mut req = request(vec!["f"], 1, 777, 888);
    req.key = "k".to_string();
    req.entity = "transaction".to_string();
    let jid = coord.submit_job(req);
    let job = coord.job(jid).unwrap();
    assert_eq!(job.evaluator_id, 777);
    assert_eq!(job.ingestion_job_id, 888);
    assert_eq!(job.key, "k");
    assert_eq!(job.entity, "transaction");
    assert_eq!(job.n_map, 1);
    assert_eq!(job.map_tasks.len(), 1);
    assert_eq!(job.reduce_tasks.len(), 1);
}

#[test]
fn job_ids_start_at_configured_value() {
    let mut cfg = test_config();
    cfg.initial_job_id = 40;
    cfg.initial_worker_id = 5;
    let mut coord = Coordinator::new(&cfg);
    assert_eq!(coord.submit_job(request(vec![], 0, 1, 1)), 40);
    assert_eq!(coord.submit_job(request(vec![], 0, 1, 1)), 41);
    assert_eq!(coord.register(0), 5);
    assert_eq!(coord.register(0), 6);
    assert_eq!(coord.task_timeout_secs(), 7);
}

#[test]
fn map_then_reduce_then_done() {
    let mut coord = Coordinator::new(&test_config());
    let wid = coord.register(100);
    let jid = coord.submit_job(request(vec!["a.txt", "b.txt"], 1, 1, 1));

    let t1 = coord.get_task(wid, 100);
    assert!(!t1.wait);
    assert!(!t1.reduce);
    assert_eq!(t1.task, 0);
    assert_eq!(t1.file, "a.txt");
    assert_eq!(t1.n_reduce, 1);
    let t2 = coord.get_task(wid, 100);
    assert!(!t2.reduce);
    assert_eq!(t2.task, 1);
    assert_eq!(t2.file, "b.txt");

    // Both maps are handed out: the reduce waits for them.
    let t3 = coord.get_task(wid, 100);
    assert!(t3.wait);

    assert!(coord.finish_task(wid, jid, 0, false, 101).unwrap().is_none());
    assert!(coord.finish_task(wid, jid, 1, false, 101).unwrap().is_none());
    assert_eq!(coord.job(jid).unwrap().map_tasks[1].state, TaskState::Completed);

    let r = coord.get_task(wid, 102);
    assert!(!r.wait);
    assert!(r.reduce);
    assert_eq!(r.task, 0);
    assert_eq!(r.map_task_assignments.len(), 2);

    let done = coord.finish_task(wid, jid, 0, true, 103).unwrap();
    assert_eq!(done.unwrap().job_id, jid);
    let reply = coord.poll_job(jid).unwrap();
    assert!(reply.done);
    assert!(!reply.failed);
    // Finishing again changes nothing and reports nothing new.
    assert!(coord.finish_task(wid, jid, 0, true, 104).unwrap().is_none());
    assert!(coord.get_task(wid, 105).wait);
}

#[test]
fn finish_task_rejects_unknown_job_and_bad_task() {
    let mut coord = Coordinator::new(&test_config());
    let wid = coord.register(0);
    assert_eq!(coord.finish_task(wid, 3, 0, false, 0).unwrap_err(), CoordinatorError::JobNotFound);
    let jid = coord.submit_job(request(vec!["a"], 1, 1, 1));
    assert_eq!(coord.finish_task(wid, jid, 5, false, 0).unwrap_err(), CoordinatorError::InvalidTaskNumber);
    assert_eq!(coord.finish_task(wid, jid, 1, true, 0).unwrap_err(), CoordinatorError::InvalidTaskNumber);
}

#[test]
fn task_of_dead_worker_is_handed_out_again() {
    let mut coord = Coordinator::new(&test_config());
    let w1 = coord.register(0);
    let w2 = coord.register(0);
    let _jid = coord.submit_job(request(vec!["a"], 1, 1, 1));
    let t = coord.get_task(w1, 0);
    assert!(!t.wait);
    // Within the timeout the task stays with the first worker.
    coord.heartbeat(w2, 5_000);
    assert!(coord.get_task(w2, 5_000).wait);
    // After the timeout (in milliseconds) without a heartbeat of the first
    // worker, it moves.
    coord.heartbeat(w2, 20_000);
    let again = coord.get_task(w2, 20_000);
    assert!(!again.wait);
    assert_eq!(again.task, 0);
    assert!(!again.reduce);
}

#[test]
fn decode_reduce_bytes_roundtrip() {
    let data = encode(&[("123", 1000, 2), ("456", 2000, 1)]);
    let decoded = decode_reduce_bytes(&data);
    assert_eq!(decoded.len(), 2);
    assert_eq!(decoded[0].0, "123");
    assert_eq!(decoded[0].1, 1000);
    assert_eq!(decoded[0].2, 2);
    assert_eq!(decoded[1].0, "456");
    assert_eq!(decoded[1].1, 2000);
}

#[test]
fn decode_reduce_bytes_stops_at_truncated_frame() {
    let mut data = encode(&[("7", 5, 1)]);
    data.extend_from_slice(&[9, 0, 0, 0, b'x']);
    let decoded = decode_reduce_bytes(&data);
    assert_eq!(decoded, vec![("7".to_string(), 5, 1)]);
    assert!(decode_reduce_bytes(&[]).is_empty());
}

#[test]
fn read_reduced_for_job_from_output_dir() {
    let outputs = vec![encode(&[("10", 5000, 1), ("20", 7000, 2)]), Vec::new()];
    let pairs = read_reduced_for_job(&outputs, &vec![]).unwrap();
    assert_eq!(pairs.len(), 2);
    assert_eq!(pairs[0].customer_id, 10);
    assert_eq!(pairs[0].sum, 5000);
    assert_eq!(pairs[0].count, 1);
    assert_eq!(pairs[0].avg, 5000);
    assert_eq!(pairs[1].customer_id, 20);
    assert_eq!(pairs[1].sum, 7000);
    assert_eq!(pairs[1].count, 2);
    assert_eq!(pairs[1].avg, 3500);
}

#[test]
fn read_reduced_fallback_to_source_file_when_no_mr_out() {
    let content = "1,101,2026-09-20T00:00:00Z,1000,Debit,desc\n2,101,2026-09-20T01:00:00Z,2000,Credit,desc\n3,102,2026-09-20T02:00:00Z,3000,Debit,desc\n";
    let pairs = read_reduced_for_job(&vec![], &vec![content.to_string()]).unwrap();
    assert_eq!(pairs.len(), 2);
    assert_eq!(pairs[0].customer_id, 101);
    assert_eq!(pairs[0].sum, 3000);
    assert_eq!(pairs[0].count, 2);
    assert_eq!(pairs[0].avg, 1500);
    assert_eq!(pairs[1].customer_id, 102);
    assert_eq!(pairs[1].sum, 3000);
    assert_eq!(pairs[1].count, 1);
}

#[test]
fn read_reduced_for_customer_fallback_to_source_file() {
    let content = "1,101,2026-09-14T03:21:15Z,1000000000,Debit,Test1\n2,101,2026-09-14T03:22:00Z,200,Credit,Test2\n3,102,2026-09-14T03:23:00Z,300,Debit,Test3\n";
    let pairs = read_reduced_for_job(&vec![], &vec![content.to_string()]).unwrap();
    assert_eq!(pairs.len(), 2);
    assert_eq!(pairs[0].customer_id, 101);
    assert_eq!(pairs[0].sum, 1000000200);
    assert_eq!(pairs[0].count, 2);
    assert_eq!(pairs[1].customer_id, 102);
    assert_eq!(pairs[1].sum, 300);
    assert_eq!(pairs[1].count, 1);
}

#[test]
fn read_reduced_for_customer_from_mr_out() {
    let outputs = vec![encode(&[("10", 0, 1), ("20", 0, 1)]), Vec::new()];
    let pairs = read_reduced_for_job(&outputs, &vec![]).unwrap();
    assert_eq!(pairs.len(), 2);
    assert_eq!(pairs[0].customer_id, 10);
    assert_eq!(pairs[0].sum, 0);
    assert_eq!(pairs[0].count, 1);
    assert_eq!(pairs[1].customer_id, 20);
    assert_eq!(pairs[1].sum, 0);
    assert_eq!(pairs[1].count, 1);
}

#[test]
fn read_reduced_per_customer_matches_prompt_example() {
    let outputs = vec![encode(&[("1", 2500000300, 5), ("2", 200, 1), ("3", 500, 1)]), Vec::new()];
    let pairs = read_reduced_for_job(&outputs, &vec![]).unwrap();
    assert_eq!(pairs.len(), 3);
    assert_eq!(pairs[0].customer_id, 1);
    assert_eq!(pairs[0].sum, 2500000300);
    assert_eq!(pairs[0].count, 5);
    assert_eq!(pairs[0].avg, 500000060);
    assert_eq!(pairs[1].customer_id, 2);
    assert_eq!(pairs[1].sum, 200);
    assert_eq!(pairs[1].count, 1);
    assert_eq!(pairs[1].avg, 200);
    assert_eq!(pairs[2].customer_id, 3);
    assert_eq!(pairs[2].sum, 500);
    assert_eq!(pairs[2].count, 1);
    assert_eq!(pairs[2].avg, 500);
    // The evaluator requests, one per customer, as the rule engine sees them.
    let array: Vec<JsonValue> =
        completion_plan(1, 100, &pairs).evaluations.iter().map(|req| build_zen_input(req)).collect();
    assert_eq!(int_of(path(&array[0], &["customer", "customer_id"])), Some(1));
    assert_eq!(int_of(path(&array[0], &["transaction", "transaction_today", "sum"])), Some(2500000300i64));
    assert_eq!(array.len(), 3);
}

fn field<'a>(v: &'a JsonValue, key: &str) -> Option<&'a JsonValue> {
    match v {
        JsonValue::Object(m) => {
            let mut cur = m;
            while let JsonMembers::Cons(k, val, rest) = cur {
                if k == key {
                    return Some(&**val);
                }
                cur = &**rest;
            }
            None
        }
        _ => None,
    }
}

fn path<'a>(v: &'a JsonValue, keys: &[&str]) -> Option<&'a JsonValue> {
    let mut cur = v;
    for k in keys {
        cur = field(cur, k)?;
    }
    Some(cur)
}

fn int_of(v: Option<&JsonValue>) -> Option<i64> {
    match v {
        Some(JsonValue::Number(JsonNumber::PosInt(n))) => Some(*n as i64),
        Some(JsonValue::Number(JsonNumber::NegInt(n))) => Some(*n),
        _ => None,
    }
}

#[test]
fn read_reduced_merges_same_customer_across_files_and_sorts() {
    let outputs = vec![encode(&[("20", 10, 1), ("3", 4, 2)]), encode(&[("20", 5, 1)])];
    let pairs = read_reduced_for_job(&outputs, &vec!["1,9,x,100,Debit,d".to_string()]).unwrap();
    assert_eq!(pairs.len(), 2);
    assert_eq!((pairs[0].customer_id, pairs[0].sum, pairs[0].count, pairs[0].avg), (3, 4, 2, 2));
    assert_eq!((pairs[1].customer_id, pairs[1].sum, pairs[1].count, pairs[1].avg), (20, 15, 2, 7));
}

#[test]
fn read_reduced_reports_overflow() {
    let outputs = vec![encode(&[("1", u64::MAX, 1)]), encode(&[("1", 1, 1)])];
    assert_eq!(read_reduced_for_job(&outputs, &vec![]).unwrap_err(), ReducedError::Overflow);
}

#[test]
fn completion_plan_evaluates_each_customer() {
    let outputs = vec![encode(&[("1", 2500000300, 5), ("2", 200, 1)])];
    let customers = read_reduced_for_job(&outputs, &vec![]).unwrap();
    let plan = completion_plan(7, 100, &customers);
    assert!(plan.mark_completed);
    assert_eq!(plan.evaluations.len(), 2);
    let e = &plan.evaluations[0];
    assert_eq!((e.evaluator_id, e.job_id), (7, 100));
    assert_eq!(e.customer.unwrap().customer_id, 1);
    let t = e.transaction.unwrap().transaction_today.unwrap();
    assert_eq!((t.sum, t.count, t.avg), (2500000300, 5, 500000060));
    let none = completion_plan(0, 0, &customers);
    assert!(!none.mark_completed);
    assert!(none.evaluations.is_empty());
}

#[test]
fn ids_after_k_submissions_start_from_the_first_id() {
    let mut cfg = test_config();
    cfg.initial_job_id = 40;
    let mut coord = Coordinator::new(&cfg);
    for k in 0..5u32 {
        assert_eq!(coord.submit_job(request(vec!["a", "b"], 2, 1, 2)), 40 + k);
    }
    let job = coord.job(44).unwrap();
    assert_eq!(job.map_tasks.len(), 2);
    assert_eq!(job.reduce_tasks.len(), 2);
    assert!(job.map_tasks.iter().all(|t| t.state == TaskState::Idle));
}

#[test]
fn reduce_task_lists_who_did_each_map_task_and_wait_changes_nothing() {
    let mut coord = Coordinator::new(&test_config());
    let w0 = coord.register(1_000);
    let w1 = coord.register(1_000);
    let jid = coord.submit_job(request(vec!["a", "b"], 1, 1, 2));
    let t0 = coord.get_task(w0, 1_000);
    let t1 = coord.get_task(w1, 1_000);
    assert!(!t0.wait && !t0.reduce && !t1.wait && !t1.reduce);
    assert!(coord.finish_task(w1, jid, t1.task, false, 1_100).is_ok());
    assert!(coord.finish_task(w0, jid, t0.task, false, 1_100).is_ok());
    let r = coord.get_task(w0, 1_200);
    assert!(r.reduce && !r.wait);
    assert_eq!(r.map_task_assignments.len(), 2);
    assert_eq!(r.map_task_assignments[t0.task as usize].worker_id, w0);
    assert_eq!(r.map_task_assignments[t1.task as usize].worker_id, w1);
    assert_eq!(r.map_task_assignments[0].task, 0);
    assert_eq!(r.map_task_assignments[1].task, 1);
    let wait = coord.get_task(w1, 1_200);
    assert!(wait.wait);
    assert_eq!(wait.job_id, 0);
    assert!(coord.job(jid).unwrap().reduce_tasks[0].state == TaskState::InProgress);
    assert!(coord.finish_task(w0, jid, 0, true, 1_300).unwrap().is_some());
    assert!(coord.job(jid).unwrap().done);
    assert!(coord.finish_task(w1, jid, 1, false, 1_400).unwrap().is_none());
    assert!(coord.job(jid).unwrap().done);
}
