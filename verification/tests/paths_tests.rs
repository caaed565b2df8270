use benefit_engine::paths::{
    benefit_dir_candidates, find_benefit_dir, reduce_file_candidates, find_output_dir, find_rule_file, first_existing, output_dir_candidates,
    resolve_benefit_dir_fallback, rule_file_candidates, transaction_file_candidates,
};

#[test]
fn rule_file_is_first_existing_candidate() {
    assert_eq!(rule_file_candidates("/m")[2], "/m/../../data/rule/cashback.json");
    let found = find_rule_file("/m", &vec![false, false, false, true, true, false]);
    assert_eq!(found, Some("/m/../../../data/rule/cashback.json".to_string()));
    assert_eq!(find_rule_file("/m", &vec![false; 6]), None);
}

#[test]
fn output_dir_is_first_directory() {
    assert_eq!(output_dir_candidates("/m").len(), 7);
    assert_eq!(find_output_dir("/m", &vec![false, false, false, false, false, false, true]), Some("/tmp/output".into()));
    assert_eq!(find_output_dir("/m", &vec![true; 7]), Some("data/output".into()));
}

#[test]
fn benefit_dir_joins_path() {
    assert_eq!(find_benefit_dir("data/output"), "data/output/benefit");
    assert_eq!(find_benefit_dir("data/output/"), "data/output/benefit");
    assert_eq!(find_benefit_dir(""), "benefit");
}

#[test]
fn benefit_dir_fallback() {
    assert_eq!(benefit_dir_candidates("/m")[4], "/m/data/output/benefit");
    assert_eq!(resolve_benefit_dir_fallback("/m", &vec![false, false, true, false, false]), "/m/../../data/output/benefit");
    assert_eq!(resolve_benefit_dir_fallback("/m", &vec![false; 5]), "data/output/benefit");
}

#[test]
fn transaction_candidates() {
    let c = transaction_file_candidates("x/t.txt", "t.txt", None);
    assert_eq!(c, vec![
        "data/transaction/t.txt",
        "data/transaction/x/t.txt",
        "./data/transaction/t.txt",
        "./data/transaction/x/t.txt"
    ]);
    let c2 = transaction_file_candidates("x/t.txt", "t.txt", Some("/w"));
    assert_eq!(c2.len(), 8);
    assert_eq!(c2[6], "/w/x/t.txt");
    assert_eq!(c2[7], "/w/t.txt");
    assert_eq!(first_existing(&c2, &vec![false, false, false, false, false, true, false, false]), Some("/w/data/transaction/x/t.txt".into()));
}

#[test]
fn reduce_file_locations() {
    assert_eq!(reduce_file_candidates("data/output//", 42, 1), vec!["data/output/42/mr-out-1", "data/output/mr-out-1"]);
    assert_eq!(reduce_file_candidates("/", 0, 0), vec!["/0/mr-out-0", "/mr-out-0"]);
}
