use benefit_engine::codec::{decode_output_file, KeyValue, LengthDelimitedReader, LengthDelimitedWriter};
use benefit_engine::messages::{MapTaskAssignment, TaskReply};
use benefit_engine::transaction_summary::{process_output, reduce, SummaryError};
use benefit_engine::worker::{
    count_transaction_lines, get_addr, get_port, worker_endpoint,
    dummy_reduce, get_app, parse_transaction_line, partition_map_output, plan_task, read_map, reduce_output_path,
    reduce_task_output, reduce_with, run_map, transaction_map_fn, App, ReadMapError, ReduceError, TaskPlan,
    WorkerState,
};

fn record(sum: u64, count: u64, debit: u64, credit: u64) -> Vec<u8> {
    let mut v = Vec::new();
    for x in [sum, count, debit, credit] {
        v.extend_from_slice(&x.to_be_bytes());
    }
    v
}

fn reply(wait: bool, reduce: bool, n_reduce: u32, app: &str) -> TaskReply {
    TaskReply {
        job_id: 3,
        output_dir: "out".to_string(),
        file: "in.txt".to_string(),
        wait,
        task: 1,
        reduce,
        n_reduce,
        app: app.to_string(),
        key: String::new(),
        entity: String::new(),
        map_task_assignments: vec![MapTaskAssignment { task: 0, worker_id: 9 }],
    }
}

#[test]
fn test_worker_module_importable() {
    let state = WorkerState::new();
    assert!(state.get_data(1, 0, 0).is_none());
}

#[test]
fn test_worker_state_data_visibility() {
    let mut state = WorkerState::new();
    state.store_map_output(1, 0, vec![vec![7u8], vec![8u8]]);
    assert_eq!(state.get_data(1, 0, 0), Some(vec![7u8]));
    assert_eq!(state.get_data(1, 0, 1), Some(vec![8u8]));
    assert!(state.get_data(1, 0, 2).is_none());
    assert!(state.get_data(1, 1, 0).is_none());
    assert!(state.get_data(2, 0, 0).is_none());
}

#[test]
fn worker_state_store_overwrite_and_remove() {
    let mut state = WorkerState::new();
    state.store_map_output(1, 0, vec![vec![1u8]]);
    state.store_map_output(1, 1, vec![vec![2u8]]);
    state.store_map_output(1, 0, vec![vec![3u8]]);
    assert_eq!(state.get_data(1, 0, 0), Some(vec![3u8]));
    assert_eq!(state.get_data(1, 1, 0), Some(vec![2u8]));
    assert_eq!(read_map(&state, 1, 1, 0), Ok(vec![2u8]));
    state.remove_job(1);
    assert_eq!(
        read_map(&state, 1, 1, 0),
        Err(ReadMapError::InvalidArgument("worker does not have data for the given task".to_string()))
    );
}

#[test]
fn parse_transaction_line_fields() {
    let p = parse_transaction_line(" 1, 101 ,2026-09-14T03:21:15Z,1000,Debit,desc, with comma ").unwrap();
    assert_eq!(p.id, "1");
    assert_eq!(p.ref_id, "101");
    assert_eq!(p.timestamp, "2026-09-14T03:21:15Z");
    assert_eq!(p.amount, "1000");
    assert_eq!(p.tx_type, "Debit");
    assert_eq!(p.description, "desc, with comma");
    assert!(parse_transaction_line("1,2,3").is_none());
    assert!(parse_transaction_line("   ").is_none());
}

#[test]
fn transaction_map_fn_keys_lines_by_customer() {
    let content = b"1,101,t,10,Debit,a\n\n2,,t,5,Credit,b\nnot a line\n".to_vec();
    let out = transaction_map_fn(KeyValue::new(b"f".to_vec(), content));
    assert_eq!(out.len(), 3);
    assert_eq!(out[0].key, b"101".to_vec());
    assert_eq!(out[0].value, b"1,101,t,10,Debit,a".to_vec());
    assert_eq!(out[1].key, b"2".to_vec());
    assert_eq!(out[2].key, b"unknown".to_vec());
}

#[test]
fn dummy_reduce_joins_with_commas() {
    assert_eq!(dummy_reduce(b"k", &vec![b"a".to_vec(), b"b".to_vec()]), b"a,b".to_vec());
    assert_eq!(dummy_reduce(b"k", &vec![]), Vec::<u8>::new());
}

#[test]
fn get_app_names() {
    assert_eq!(get_app("benefit-evaluator"), Some(App::BenefitEvaluator));
    assert_eq!(get_app("benefit_evaluator"), Some(App::BenefitEvaluator));
    assert_eq!(get_app("other"), None);
}

#[test]
fn summary_map_emits_records() {
    let kv = KeyValue::new(b"f".to_vec(), b"1,101,t,10,DEBIT,a\n2,101,t,x,credit,b\njunk\n".to_vec());
    let out = benefit_engine::transaction_summary::map(kv).unwrap();
    assert_eq!(out.len(), 3);
    assert_eq!(out[0].key, b"101".to_vec());
    assert_eq!(out[0].value, record(10, 1, 1, 0));
    assert_eq!(out[1].value, record(0, 1, 0, 1));
    assert_eq!(out[2].key, b"unknown".to_vec());
    assert_eq!(out[2].value, record(0, 1, 0, 0));
    let bad = KeyValue::new(b"f".to_vec(), vec![0xff, 0xfe]);
    assert_eq!(benefit_engine::transaction_summary::map(bad).unwrap_err(), SummaryError::InvalidUtf8);
}

#[test]
fn summary_reduce_adds_records() {
    let r = reduce(b"101", &vec![record(10, 1, 1, 0), record(5, 1, 0, 1)]).unwrap();
    assert_eq!(r, record(15, 2, 1, 1));
    assert_eq!(reduce(b"101", &vec![]).unwrap(), record(0, 0, 0, 0));
    assert_eq!(
        reduce(b"101", &vec![record(u64::MAX, 1, 0, 0), record(1, 1, 0, 0)]).unwrap_err(),
        SummaryError::Overflow
    );
    assert_eq!(
        reduce_with(Some(App::BenefitEvaluator), b"k", &vec![record(1, 1, 0, 0)]).unwrap(),
        record(1, 1, 0, 0)
    );
    assert_eq!(reduce_with(None, b"k", &vec![b"x".to_vec(), b"y".to_vec()]).unwrap(), b"x,y".to_vec());
}

#[test]
fn process_output_sorts_rows() {
    let kvs = vec![
        KeyValue::new(b"20".to_vec(), record(5, 1, 1, 0)),
        KeyValue::new(b"100".to_vec(), record(7, 2, 0, 2)),
        KeyValue::new(b"20".to_vec(), record(3, 1, 0, 1)),
        KeyValue::new(b"short".to_vec(), vec![1, 2, 3]),
    ];
    let rows = process_output(&kvs).unwrap();
    assert_eq!(rows.len(), 3);
    assert_eq!((rows[0].customer_id.as_str(), rows[0].sum, rows[0].count), ("100", 7, 2));
    assert_eq!((rows[1].customer_id.as_str(), rows[1].sum, rows[1].debit, rows[1].credit), ("20", 3, 0, 1));
    assert_eq!((rows[2].customer_id.as_str(), rows[2].sum), ("20", 5));
    let bad = vec![KeyValue::new(vec![0xff], record(0, 0, 0, 0))];
    assert_eq!(process_output(&bad).unwrap_err(), SummaryError::InvalidUtf8);
}

#[test]
fn partition_and_reduce_round_trip() {
    let content = b"1,101,t,10,Debit,a\n2,102,t,20,Credit,b\n3,101,t,5,Debit,c\n".to_vec();
    let parts = run_map(Some(App::BenefitEvaluator), "in.txt", content, 3).unwrap();
    assert_eq!(parts.len(), 3);
    let out = reduce_task_output(Some(App::BenefitEvaluator), &parts).unwrap();
    let mut kvs = decode_output_file(&out);
    kvs.sort_by(|a, b| a.key.cmp(&b.key));
    assert_eq!(kvs.len(), 2);
    assert_eq!(kvs[0].key, b"101".to_vec());
    assert_eq!(kvs[0].value, record(15, 2, 2, 0));
    assert_eq!(kvs[1].key, b"102".to_vec());
    assert_eq!(kvs[1].value, record(20, 1, 0, 1));
}

#[test]
fn reduce_output_groups_keys_in_order() {
    let pairs = vec![
        KeyValue::new(b"b".to_vec(), b"1".to_vec()),
        KeyValue::new(b"a".to_vec(), b"2".to_vec()),
        KeyValue::new(b"b".to_vec(), b"3".to_vec()),
    ];
    let parts = partition_map_output(&pairs, &vec![7, 7, 7], 1);
    assert_eq!(parts.len(), 1);
    let out = reduce_task_output(None, &parts).unwrap();
    let kvs = decode_output_file(&out);
    assert_eq!(kvs.len(), 2);
    assert_eq!((kvs[0].key.clone(), kvs[0].value.clone()), (b"a".to_vec(), b"2".to_vec()));
    assert_eq!((kvs[1].key.clone(), kvs[1].value.clone()), (b"b".to_vec(), b"1,3".to_vec()));
}

#[test]
fn reduce_task_rejects_key_without_value() {
    let mut w = LengthDelimitedWriter::new();
    w.send(b"lonely");
    let buf = w.finish();
    assert_eq!(reduce_task_output(None, &vec![buf]).unwrap_err(), ReduceError::KeyWithoutValue);
}

#[test]
fn run_map_rejects_invalid_utf8() {
    assert_eq!(run_map(Some(App::BenefitEvaluator), "f", vec![0xff], 2).unwrap_err(), SummaryError::InvalidUtf8);
}

#[test]
fn frames_round_trip() {
    let mut w = LengthDelimitedWriter::new();
    w.send(b"abc");
    w.send(b"");
    w.send(b"de");
    assert_eq!(w.len(), 4 + 3 + 4 + 4 + 2);
    let buf = w.finish();
    assert_eq!(&buf[0..4], &3u32.to_le_bytes());
    let mut r = LengthDelimitedReader::new(buf);
    assert_eq!(r.next(), Some(b"abc".to_vec()));
    assert_eq!(r.next(), Some(Vec::new()));
    assert_eq!(r.next(), Some(b"de".to_vec()));
    assert_eq!(r.next(), None);
}

#[test]
fn plan_task_decisions() {
    assert!(matches!(plan_task(&reply(true, false, 2, "x")), TaskPlan::Wait));
    match plan_task(&reply(false, false, 0, "")) {
        TaskPlan::RunMap(p) => {
            assert_eq!((p.job_id, p.task, p.n_reduce), (3, 1, 4));
            assert_eq!(p.file, "in.txt");
            assert_eq!(p.app, Some(App::BenefitEvaluator));
        }
        _ => panic!("expected a map task"),
    }
    match plan_task(&reply(false, true, 2, "other")) {
        TaskPlan::RunReduce(p) => {
            assert_eq!((p.job_id, p.task), (3, 1));
            assert_eq!(p.output_dir, "out");
            assert_eq!(p.map_tasks, vec![MapTaskAssignment { task: 0, worker_id: 9 }]);
            assert_eq!(p.app, None);
        }
        _ => panic!("expected a reduce task"),
    }
}

#[test]
fn reduce_output_path_format() {
    assert_eq!(reduce_output_path("data/output/7", 2), "data/output/7/mr-out-2");
}

#[test]
fn count_transaction_lines_skips_blank_lines() {
    assert_eq!(count_transaction_lines("a\n\n  \nb\r\nc"), 3);
    assert_eq!(count_transaction_lines("   "), 0);
    assert_eq!(count_transaction_lines(""), 0);
}

#[test]
fn worker_ports_and_addresses() {
    assert_eq!(get_port(3, 50000), 50003);
    assert_eq!(get_port(0, u16::MAX), u16::MAX);
    assert_eq!(get_addr(2, 10170), "127.0.0.1:10172");
    assert_eq!(worker_endpoint(2, 10170), "http://127.0.0.1:10172");
}

#[test]
fn partition_follows_given_hashes() {
    let pairs = vec![
        KeyValue::new(b"a".to_vec(), b"1".to_vec()),
        KeyValue::new(b"b".to_vec(), b"2".to_vec()),
        KeyValue::new(b"c".to_vec(), b"3".to_vec()),
    ];
    // Only the low 32 bits count: 0x1_0000_0002 goes where 2 goes.
    let parts = partition_map_output(&pairs, &vec![5, 0x1_0000_0002, 3], 3);
    let mut w = LengthDelimitedWriter::new();
    w.send(b"a");
    w.send(b"1");
    w.send(b"b");
    w.send(b"2");
    assert_eq!(parts[2], w.finish());
    assert!(parts[1].is_empty());
    let mut w0 = LengthDelimitedWriter::new();
    w0.send(b"c");
    w0.send(b"3");
    assert_eq!(parts[0], w0.finish());
}

#[test]
fn reducing_partial_reductions_equals_reducing_all() {
    let a = vec![record(10, 1, 1, 0), record(5, 1, 0, 1)];
    let b = vec![record(7, 1, 1, 0), b"x".to_vec()];
    let mut all = a.clone();
    all.extend(b.iter().cloned());
    let whole = reduce(b"c", &all).unwrap();
    let parts = vec![reduce(b"c", &a).unwrap(), reduce(b"c", &b).unwrap()];
    assert_eq!(reduce(b"c", &parts).unwrap(), whole);
    let swapped = vec![reduce(b"c", &b).unwrap(), reduce(b"c", &a).unwrap()];
    assert_eq!(reduce(b"c", &swapped).unwrap(), whole);
    assert_eq!(whole, record(22, 4, 2, 1));
}

#[test]
fn writer_frames_read_back_in_order() {
    let mut w = LengthDelimitedWriter::new();
    w.send(b"ab");
    w.send(b"");
    w.send(b"xyz");
    assert_eq!(w.len(), 4 * 3 + 5);
    let mut r = LengthDelimitedReader::new(w.finish());
    assert_eq!(r.next(), Some(b"ab".to_vec()));
    assert_eq!(r.next(), Some(Vec::new()));
    assert_eq!(r.next(), Some(b"xyz".to_vec()));
    assert_eq!(r.next(), None);
}

#[test]
fn pairs_with_one_key_land_in_one_partition() {
    let parts = run_map(None, "f", b"x\ny\n\nz\nw".to_vec(), 4).unwrap();
    assert_eq!(parts.len(), 4);
    let full: Vec<&Vec<u8>> = parts.iter().filter(|p| !p.is_empty()).collect();
    assert_eq!(full.len(), 1);
    let mut w = LengthDelimitedWriter::new();
    for line in [b"x", b"y", b"z", b"w"] {
        w.send(b"unknown");
        w.send(line);
    }
    assert_eq!(full[0], &w.finish());
}
