//! Repository filters and the SQL text that the repositories run.

use vstd::prelude::*;
use crate::time::{UtcTime, naive_datetime_parse, parse_naive_datetime};
use crate::text::push_str;

verus! {

/// `tail` when `cond` holds, the empty text otherwise.
pub open spec fn clause_if(cond: bool, tail: Seq<char>) -> Seq<char> {
    if cond { tail } else { Seq::empty() }
}


// ---------------------------------------------------------------------------
// evaluator
// ---------------------------------------------------------------------------

/// Filter for listing evaluators. `evaluator_id` is an alias of `id`;
/// `id` wins when both are set.
#[derive(Debug, Clone)]
pub struct EvaluatorFilter {
    pub id: Option<i64>,
    pub evaluator_id: Option<i64>,
}

impl Default for EvaluatorFilter {
    fn default() -> (f: Self)
        ensures
            f.id is None,
            f.evaluator_id is None,
    {
        EvaluatorFilter { id: None, evaluator_id: None }
    }
}

impl EvaluatorFilter {
    /// The id the filter selects: `id` if set, else `evaluator_id`.
    pub open spec fn spec_effective_id(&self) -> Option<i64> {
        match self.id {
            Some(i) => Some(i),
            None => self.evaluator_id,
        }
    }

    /// The single `id` to filter by, or `None` for list-all.
    pub fn effective_id(&self) -> (r: Option<i64>)
        ensures
            r == self.spec_effective_id(),
    {
        match self.id {
            Some(i) => Some(i),
            None => self.evaluator_id,
        }
    }
}

pub open spec fn evaluator_columns() -> Seq<char> {
    "SELECT id, name, CAST(start_valid_date AS DATETIME) AS start_valid_date, CAST(end_valid_date AS DATETIME) AS end_valid_date, is_active, running_frequency, CAST(created_at AS DATETIME) AS created_at, created_by, CAST(updated_at AS DATETIME) AS updated_at, updated_by, CAST(deleted_at AS DATETIME) AS deleted_at, deleted_by FROM evaluator WHERE is_active = TRUE AND deleted_at IS NULL AND "@
}

pub open spec fn evaluator_window() -> Seq<char> {
    "(start_valid_date IS NULL OR start_valid_date <= ?) AND (end_valid_date IS NULL OR end_valid_date >= ?)"@
}

/// The evaluator list query: active, not soft-deleted, inside its validity
/// window (both bounds bound as `?`), and with `id = ?` when `has_id`.
pub open spec fn spec_list_evaluators_sql(has_id: bool) -> Seq<char> {
    evaluator_columns() + clause_if(has_id, "id = ? AND "@) + evaluator_window()
}

/// Returns the list query for the given filter shape.
pub fn list_evaluators_sql(has_id: bool) -> (sql: &'static str)
    ensures
        sql@ == spec_list_evaluators_sql(has_id),
{
    let all = "SELECT id, name, CAST(start_valid_date AS DATETIME) AS start_valid_date, CAST(end_valid_date AS DATETIME) AS end_valid_date, is_active, running_frequency, CAST(created_at AS DATETIME) AS created_at, created_by, CAST(updated_at AS DATETIME) AS updated_at, updated_by, CAST(deleted_at AS DATETIME) AS deleted_at, deleted_by FROM evaluator WHERE is_active = TRUE AND deleted_at IS NULL AND (start_valid_date IS NULL OR start_valid_date <= ?) AND (end_valid_date IS NULL OR end_valid_date >= ?)";
    let by_id = "SELECT id, name, CAST(start_valid_date AS DATETIME) AS start_valid_date, CAST(end_valid_date AS DATETIME) AS end_valid_date, is_active, running_frequency, CAST(created_at AS DATETIME) AS created_at, created_by, CAST(updated_at AS DATETIME) AS updated_at, updated_by, CAST(deleted_at AS DATETIME) AS deleted_at, deleted_by FROM evaluator WHERE is_active = TRUE AND deleted_at IS NULL AND id = ? AND (start_valid_date IS NULL OR start_valid_date <= ?) AND (end_valid_date IS NULL OR end_valid_date >= ?)";
    proof {
        reveal_strlit("SELECT id, name, CAST(start_valid_date AS DATETIME) AS start_valid_date, CAST(end_valid_date AS DATETIME) AS end_valid_date, is_active, running_frequency, CAST(created_at AS DATETIME) AS created_at, created_by, CAST(updated_at AS DATETIME) AS updated_at, updated_by, CAST(deleted_at AS DATETIME) AS deleted_at, deleted_by FROM evaluator WHERE is_active = TRUE AND deleted_at IS NULL AND (start_valid_date IS NULL OR start_valid_date <= ?) AND (end_valid_date IS NULL OR end_valid_date >= ?)");
        reveal_strlit("SELECT id, name, CAST(start_valid_date AS DATETIME) AS start_valid_date, CAST(end_valid_date AS DATETIME) AS end_valid_date, is_active, running_frequency, CAST(created_at AS DATETIME) AS created_at, created_by, CAST(updated_at AS DATETIME) AS updated_at, updated_by, CAST(deleted_at AS DATETIME) AS deleted_at, deleted_by FROM evaluator WHERE is_active = TRUE AND deleted_at IS NULL AND id = ? AND (start_valid_date IS NULL OR start_valid_date <= ?) AND (end_valid_date IS NULL OR end_valid_date >= ?)");
        reveal_strlit("SELECT id, name, CAST(start_valid_date AS DATETIME) AS start_valid_date, CAST(end_valid_date AS DATETIME) AS end_valid_date, is_active, running_frequency, CAST(created_at AS DATETIME) AS created_at, created_by, CAST(updated_at AS DATETIME) AS updated_at, updated_by, CAST(deleted_at AS DATETIME) AS deleted_at, deleted_by FROM evaluator WHERE is_active = TRUE AND deleted_at IS NULL AND ");
        reveal_strlit("(start_valid_date IS NULL OR start_valid_date <= ?) AND (end_valid_date IS NULL OR end_valid_date >= ?)");
        reveal_strlit("id = ? AND ");
        assert(all@ =~= spec_list_evaluators_sql(false));
        assert(by_id@ =~= spec_list_evaluators_sql(true));
    }
    if has_id { by_id } else { all }
}


/// How many times `c` occurs in `s`.
pub open spec fn occurrences(s: Seq<char>, c: char) -> nat
    decreases s.len(),
{
    if s.len() == 0 {
        0
    } else {
        occurrences(s.drop_last(), c) + if s.last() == c {
            1nat
        } else {
            0nat
        }
    }
}

proof fn lemma_occurrences_concat(a: Seq<char>, b: Seq<char>, c: char)
    ensures
        occurrences(a + b, c) == occurrences(a, c) + occurrences(b, c),
    decreases b.len(),
{
    if b.len() == 0 {
        assert(a + b =~= a);
    } else {
        lemma_occurrences_concat(a, b.drop_last(), c);
        assert((a + b).drop_last() =~= a + b.drop_last());
    }
}

/// A text without `c` has no occurrence of it.
proof fn lemma_no_occurrence(s: Seq<char>, c: char)
    requires
        forall|i: int| 0 <= i < s.len() ==> s[i] != c,
    ensures
        occurrences(s, c) == 0,
    decreases s.len(),
{
    if s.len() > 0 {
        let d = s.drop_last();
        assert forall|i: int| 0 <= i < d.len() implies d[i] != c by {
            assert(d[i] == s[i]);
        }
        lemma_no_occurrence(d, c);
    }
}

/// Law: the query for one evaluator is the query for all of them with
/// `id = ? AND ` put right after `deleted_at IS NULL AND `, before the two
/// placeholders bound to the current time; so it has three placeholders,
/// the id's first, where the other has two.
pub proof fn law_evaluator_id_placeholder_first()
    ensures
        ({
            let all = spec_list_evaluators_sql(false);
            let n = evaluator_columns().len() as int;
            &&& spec_list_evaluators_sql(true) == all.take(n) + "id = ? AND "@ + all.skip(n)
            &&& all.take(n).skip(n - 23) == "deleted_at IS NULL AND "@
            &&& occurrences(all.take(n), '?') == 0
            &&& occurrences(all, '?') == 2
            &&& occurrences(spec_list_evaluators_sql(true), '?') == 3
        }),
{
    let all = spec_list_evaluators_sql(false);
    let cols = evaluator_columns();
    let n = cols.len() as int;
    let win = evaluator_window();
    let id = "id = ? AND "@;
    reveal_strlit("SELECT id, name, CAST(start_valid_date AS DATETIME) AS start_valid_date, CAST(end_valid_date AS DATETIME) AS end_valid_date, is_active, running_frequency, CAST(created_at AS DATETIME) AS created_at, created_by, CAST(updated_at AS DATETIME) AS updated_at, updated_by, CAST(deleted_at AS DATETIME) AS deleted_at, deleted_by FROM evaluator WHERE is_active = TRUE AND deleted_at IS NULL AND ");
    reveal_strlit("(start_valid_date IS NULL OR start_valid_date <= ?) AND (end_valid_date IS NULL OR end_valid_date >= ?)");
    reveal_strlit("(start_valid_date IS NULL OR start_valid_date <= ");
    reveal_strlit(") AND (end_valid_date IS NULL OR end_valid_date >= ");
    reveal_strlit(")");
    reveal_strlit("?");
    reveal_strlit("id = ");
    reveal_strlit(" AND ");
    reveal_strlit("id = ? AND ");
    reveal_strlit("deleted_at IS NULL AND ");
    let w1 = "(start_valid_date IS NULL OR start_valid_date <= "@;
    let w2 = ") AND (end_valid_date IS NULL OR end_valid_date >= "@;
    let w3 = ")"@;
    let q = "?"@;
    assert(win =~= w1 + q + w2 + q + w3);
    assert(id =~= "id = "@ + q + " AND "@);
    lemma_no_occurrence(cols, '?');
    lemma_no_occurrence(w1, '?');
    lemma_no_occurrence(w2, '?');
    lemma_no_occurrence(w3, '?');
    lemma_no_occurrence("id = "@, '?');
    lemma_no_occurrence(" AND "@, '?');
    assert(q.len() == 1 && q[0] == '?');
    assert(q.drop_last() =~= Seq::<char>::empty());
    assert(occurrences(q.drop_last(), '?') == 0);
    assert(q.last() == '?');
    assert(occurrences(q, '?') == 1);
    lemma_occurrences_concat(w1, q, '?');
    lemma_occurrences_concat(w1 + q, w2, '?');
    lemma_occurrences_concat(w1 + q + w2, q, '?');
    lemma_occurrences_concat(w1 + q + w2 + q, w3, '?');
    lemma_occurrences_concat("id = "@, q, '?');
    lemma_occurrences_concat("id = "@ + q, " AND "@, '?');
    assert(cols.skip(n - 23) =~= "deleted_at IS NULL AND "@);
    assert(all == cols + win);
    assert(all.take(n) =~= cols);
    assert(all.skip(n) =~= win);
    lemma_occurrences_concat(cols, win, '?');
    lemma_occurrences_concat(cols, id, '?');
    lemma_occurrences_concat(cols + id, win, '?');
    assert(spec_list_evaluators_sql(true) =~= cols + id + win);
}

/// An evaluator date column read as text: `%Y-%m-%d %H:%M:%S`, else the
/// same with fractions of a second; `None` for a missing or unreadable
/// value.
pub fn parse_naive_opt(s: Option<&str>) -> (r: Option<UtcTime>)
    ensures
        r == match s {
            None => None,
            Some(v) => match naive_datetime_parse(v@, "%Y-%m-%d %H:%M:%S"@) {
                Some(x) => Some(x),
                None => naive_datetime_parse(v@, "%Y-%m-%d %H:%M:%S%.f"@),
            },
        },
{
    match s {
        None => None,
        Some(v) => {
            let a = parse_naive_datetime(v, "%Y-%m-%d %H:%M:%S");
            if a.is_some() {
                a
            } else {
                parse_naive_datetime(v, "%Y-%m-%d %H:%M:%S%.f")
            }
        },
    }
}

// ---------------------------------------------------------------------------
// rule
// ---------------------------------------------------------------------------

/// Filter for rule get/list; both fields optional.
#[derive(Debug, Clone)]
pub struct RuleFilter {
    pub id: Option<i64>,
    pub evaluator_id: Option<i64>,
}

impl Default for RuleFilter {
    fn default() -> (f: Self)
        ensures
            f.id is None,
            f.evaluator_id is None,
    {
        RuleFilter { id: None, evaluator_id: None }
    }
}

impl RuleFilter {
    /// Whether the filter restricts anything.
    pub fn has_any(&self) -> (r: bool)
        ensures
            r == (self.id is Some || self.evaluator_id is Some),
    {
        self.id.is_some() || self.evaluator_id.is_some()
    }
}

pub open spec fn rule_base() -> Seq<char> {
    "SELECT id, evaluator_id, content, input, version, description, is_active, created_at, created_by FROM rule WHERE is_active = TRUE"@
}

/// Rule query: always `is_active = TRUE`, then `id = ?` and
/// `evaluator_id = ?` in that order for the fields that are set.
pub open spec fn spec_list_rules_sql(f: RuleFilter) -> Seq<char> {
    rule_base() + clause_if(f.id is Some, " AND id = ?"@) + clause_if(
        f.evaluator_id is Some,
        " AND evaluator_id = ?"@,
    )
}

/// Builds SQL for rule get/list.
pub fn list_rules_sql(filter: &RuleFilter) -> (sql: String)
    ensures
        sql@ == spec_list_rules_sql(*filter),
{
    let mut sql = String::from_str(
        "SELECT id, evaluator_id, content, input, version, description, is_active, created_at, created_by FROM rule WHERE is_active = TRUE",
    );
    proof {
        reveal_strlit(
            "SELECT id, evaluator_id, content, input, version, description, is_active, created_at, created_by FROM rule WHERE is_active = TRUE",
        );
    }
    let ghost s0 = sql@;
    if filter.id.is_some() {
        push_str(&mut sql, " AND id = ?");
    }
    let ghost s1 = sql@;
    assert(s1 =~= s0 + clause_if(filter.id is Some, " AND id = ?"@));
    if filter.evaluator_id.is_some() {
        push_str(&mut sql, " AND evaluator_id = ?");
    }
    assert(sql@ =~= s1 + clause_if(filter.evaluator_id is Some, " AND evaluator_id = ?"@));
    sql
}

pub open spec fn spec_active_rule_by_evaluator_sql() -> Seq<char> {
    "SELECT id, evaluator_id, content, input, version, description, is_active, created_at, created_by FROM rule WHERE evaluator_id = ? AND is_active = TRUE"@
}

/// The query for the active rules of one evaluator.
pub fn get_active_rule_by_evaluator_sql() -> (sql: &'static str)
    ensures
        sql@ == spec_active_rule_by_evaluator_sql(),
{
    "SELECT id, evaluator_id, content, input, version, description, is_active, created_at, created_by FROM rule WHERE evaluator_id = ? AND is_active = TRUE"
}

/// The rule columns and table, before the conditions.
pub open spec fn rule_select() -> Seq<char> {
    "SELECT id, evaluator_id, content, input, version, description, is_active, created_at, created_by FROM rule"@
}

/// Law: the query for an evaluator's active rules and the rule list
/// filtered by that evaluator alone select the same columns from the same
/// table under the same two conditions, `evaluator_id = ?` and
/// `is_active = TRUE`, only written in the other order; each binds one
/// placeholder, the evaluator. Bound to the same evaluator they select the
/// same rows.
pub proof fn law_active_rules_query_matches_filtered_list(evaluator_id: i64)
    ensures
        ({
            let by_evaluator = spec_active_rule_by_evaluator_sql();
            let listed = spec_list_rules_sql(RuleFilter { id: None, evaluator_id: Some(evaluator_id) });
            &&& by_evaluator == rule_select() + " WHERE "@ + "evaluator_id = ?"@ + " AND "@ + "is_active = TRUE"@
            &&& listed == rule_select() + " WHERE "@ + "is_active = TRUE"@ + " AND "@ + "evaluator_id = ?"@
            &&& occurrences(by_evaluator, '?') == 1
            &&& occurrences(listed, '?') == 1
        }),
{
    let head = rule_select();
    let w = " WHERE "@;
    let e = "evaluator_id = ?"@;
    let a = " AND "@;
    let t = "is_active = TRUE"@;
    reveal_strlit("SELECT id, evaluator_id, content, input, version, description, is_active, created_at, created_by FROM rule");
    reveal_strlit("SELECT id, evaluator_id, content, input, version, description, is_active, created_at, created_by FROM rule WHERE evaluator_id = ? AND is_active = TRUE");
    reveal_strlit("SELECT id, evaluator_id, content, input, version, description, is_active, created_at, created_by FROM rule WHERE is_active = TRUE");
    reveal_strlit(" AND evaluator_id = ?");
    reveal_strlit(" WHERE ");
    reveal_strlit("evaluator_id = ?");
    reveal_strlit(" AND ");
    reveal_strlit("is_active = TRUE");
    reveal_strlit("evaluator_id = ");
    reveal_strlit("?");
    let by_evaluator = spec_active_rule_by_evaluator_sql();
    let listed = spec_list_rules_sql(RuleFilter { id: None, evaluator_id: Some(evaluator_id) });
    assert(by_evaluator =~= head + w + e + a + t);
    assert(listed =~= head + w + t + a + e);
    let q = "?"@;
    let e0 = "evaluator_id = "@;
    assert(e =~= e0 + q);
    assert(q.len() == 1 && q[0] == '?');
    assert(q.drop_last() =~= Seq::<char>::empty());
    assert(occurrences(q.drop_last(), '?') == 0);
    assert(occurrences(q, '?') == 1);
    lemma_no_occurrence(head, '?');
    lemma_no_occurrence(w, '?');
    lemma_no_occurrence(a, '?');
    lemma_no_occurrence(t, '?');
    lemma_no_occurrence(e0, '?');
    lemma_occurrences_concat(e0, q, '?');
    lemma_occurrences_concat(head, w, '?');
    lemma_occurrences_concat(head + w, e, '?');
    lemma_occurrences_concat(head + w + e, a, '?');
    lemma_occurrences_concat(head + w + e + a, t, '?');
    lemma_occurrences_concat(head + w, t, '?');
    lemma_occurrences_concat(head + w + t, a, '?');
    lemma_occurrences_concat(head + w + t + a, e, '?');
}

// ---------------------------------------------------------------------------
// job / job_detail / job_file
// ---------------------------------------------------------------------------

/// Filter for the `job` table.
#[derive(Debug, Clone)]
pub struct JobFilter {
    pub id: Option<i64>,
    pub evaluator_id: Option<i64>,
    pub status: Option<String>,
    pub created_at: Option<UtcTime>,
    pub deleted_at: Option<UtcTime>,
}

impl Default for JobFilter {
    fn default() -> (f: Self)
        ensures
            f.id is None,
            f.evaluator_id is None,
            f.status is None,
            f.created_at is None,
            f.deleted_at is None,
    {
        JobFilter { id: None, evaluator_id: None, status: None, created_at: None, deleted_at: None }
    }
}

pub open spec fn job_base() -> Seq<char> {
    "SELECT id, evaluator_id, status, created_at, updated_at FROM job WHERE 1=1"@
}

/// Job query: one `AND col = ?` per set field, in declaration order.
pub open spec fn spec_list_jobs_sql(f: JobFilter) -> Seq<char> {
    job_base() + clause_if(f.id is Some, " AND id = ?"@) + clause_if(
        f.evaluator_id is Some,
        " AND evaluator_id = ?"@,
    ) + clause_if(f.status is Some, " AND status = ?"@) + clause_if(
        f.created_at is Some,
        " AND created_at = ?"@,
    ) + clause_if(f.deleted_at is Some, " AND deleted_at = ?"@)
}

pub fn list_jobs_sql(filter: &JobFilter) -> (sql: String)
    ensures
        sql@ == spec_list_jobs_sql(*filter),
{
    let mut sql = String::from_str(
        "SELECT id, evaluator_id, status, created_at, updated_at FROM job WHERE 1=1",
    );
    proof {
        reveal_strlit("SELECT id, evaluator_id, status, created_at, updated_at FROM job WHERE 1=1");
    }
    let ghost s0 = sql@;
    if filter.id.is_some() {
        push_str(&mut sql, " AND id = ?");
    }
    let ghost s1 = sql@;
    assert(s1 =~= s0 + clause_if(filter.id is Some, " AND id = ?"@));
    if filter.evaluator_id.is_some() {
        push_str(&mut sql, " AND evaluator_id = ?");
    }
    let ghost s2 = sql@;
    assert(s2 =~= s1 + clause_if(filter.evaluator_id is Some, " AND evaluator_id = ?"@));
    if filter.status.is_some() {
        push_str(&mut sql, " AND status = ?");
    }
    let ghost s3 = sql@;
    assert(s3 =~= s2 + clause_if(filter.status is Some, " AND status = ?"@));
    if filter.created_at.is_some() {
        push_str(&mut sql, " AND created_at = ?");
    }
    let ghost s4 = sql@;
    assert(s4 =~= s3 + clause_if(filter.created_at is Some, " AND created_at = ?"@));
    if filter.deleted_at.is_some() {
        push_str(&mut sql, " AND deleted_at = ?");
    }
    assert(sql@ =~= s4 + clause_if(filter.deleted_at is Some, " AND deleted_at = ?"@));
    sql
}

/// Filter for the `job_detail` table.
#[derive(Debug, Clone)]
pub struct JobDetailFilter {
    pub id: Option<i64>,
    pub job_id: Option<i64>,
    pub file_start_range: Option<UtcTime>,
    pub file_end_range: Option<UtcTime>,
}

impl Default for JobDetailFilter {
    fn default() -> (f: Self)
        ensures
            f.id is None,
            f.job_id is None,
            f.file_start_range is None,
            f.file_end_range is None,
    {
        JobDetailFilter { id: None, job_id: None, file_start_range: None, file_end_range: None }
    }
}

impl JobDetailFilter {
    /// The lower bound of the file range that the filter uses.
    pub fn effective_file_start(&self) -> (r: Option<UtcTime>)
        ensures
            r == self.file_start_range,
    {
        match &self.file_start_range {
            Some(t) => Some(*t),
            None => None,
        }
    }
}

pub open spec fn job_detail_base() -> Seq<char> {
    "SELECT id, job_id, entity, `key`, file_start_range, file_end_range FROM job_detail WHERE 1=1"@
}

/// The range clause: both bounds, only the start, only the end, or none.
pub open spec fn job_detail_range_clause(has_start: bool, has_end: bool) -> Seq<char> {
    if has_start && has_end {
        " AND file_start_range >= ? AND file_end_range <= ?"@
    } else if has_start {
        " AND file_start_range >= ?"@
    } else if has_end {
        " AND file_end_range <= ?"@
    } else {
        Seq::empty()
    }
}

pub open spec fn spec_list_job_details_sql(f: JobDetailFilter) -> Seq<char> {
    job_detail_base() + clause_if(f.id is Some, " AND id = ?"@) + clause_if(
        f.job_id is Some,
        " AND job_id = ?"@,
    ) + job_detail_range_clause(f.file_start_range is Some, f.file_end_range is Some)
}

pub fn list_job_details_sql(filter: &JobDetailFilter) -> (sql: String)
    ensures
        sql@ == spec_list_job_details_sql(*filter),
{
    let mut sql = String::from_str(
        "SELECT id, job_id, entity, `key`, file_start_range, file_end_range FROM job_detail WHERE 1=1",
    );
    proof {
        reveal_strlit(
            "SELECT id, job_id, entity, `key`, file_start_range, file_end_range FROM job_detail WHERE 1=1",
        );
    }
    let ghost s0 = sql@;
    if filter.id.is_some() {
        push_str(&mut sql, " AND id = ?");
    }
    let ghost s1 = sql@;
    assert(s1 =~= s0 + clause_if(filter.id is Some, " AND id = ?"@));
    if filter.job_id.is_some() {
        push_str(&mut sql, " AND job_id = ?");
    }
    let ghost s2 = sql@;
    assert(s2 =~= s1 + clause_if(filter.job_id is Some, " AND job_id = ?"@));
    let start = filter.effective_file_start();
    let has_end = filter.file_end_range.is_some();
    if start.is_some() && has_end {
        push_str(&mut sql, " AND file_start_range >= ? AND file_end_range <= ?");
    } else if start.is_some() {
        push_str(&mut sql, " AND file_start_range >= ?");
    } else if has_end {
        push_str(&mut sql, " AND file_end_range <= ?");
    }
    assert(sql@ =~= s2 + job_detail_range_clause(
        filter.file_start_range is Some,
        filter.file_end_range is Some,
    ));
    sql
}

/// Filter for the `job_file` table.
#[derive(Debug, Clone)]
pub struct JobFileFilter {
    pub id: Option<i64>,
    pub job_detail_id: Option<i64>,
    pub filename: Option<String>,
    pub status: Option<String>,
    pub created_at: Option<UtcTime>,
    pub deleted_at: Option<UtcTime>,
}

impl Default for JobFileFilter {
    fn default() -> (f: Self)
        ensures
            f.id is None,
            f.job_detail_id is None,
            f.filename is None,
            f.status is None,
            f.created_at is None,
            f.deleted_at is None,
    {
        JobFileFilter {
            id: None,
            job_detail_id: None,
            filename: None,
            status: None,
            created_at: None,
            deleted_at: None,
        }
    }
}

pub open spec fn job_file_base() -> Seq<char> {
    "SELECT id, job_detail_id, filename, status, created_at, updated_at FROM job_file WHERE 1=1"@
}

pub open spec fn spec_list_job_files_sql(f: JobFileFilter) -> Seq<char> {
    job_file_base() + clause_if(f.id is Some, " AND id = ?"@) + clause_if(
        f.job_detail_id is Some,
        " AND job_detail_id = ?"@,
    ) + clause_if(f.filename is Some, " AND filename = ?"@) + clause_if(
        f.status is Some,
        " AND status = ?"@,
    ) + clause_if(f.created_at is Some, " AND created_at = ?"@) + clause_if(
        f.deleted_at is Some,
        " AND deleted_at = ?"@,
    )
}

pub fn list_job_files_sql(filter: &JobFileFilter) -> (sql: String)
    ensures
        sql@ == spec_list_job_files_sql(*filter),
{
    let mut sql = String::from_str(
        "SELECT id, job_detail_id, filename, status, created_at, updated_at FROM job_file WHERE 1=1",
    );
    proof {
        reveal_strlit(
            "SELECT id, job_detail_id, filename, status, created_at, updated_at FROM job_file WHERE 1=1",
        );
    }
    let ghost s0 = sql@;
    if filter.id.is_some() {
        push_str(&mut sql, " AND id = ?");
    }
    let ghost s1 = sql@;
    assert(s1 =~= s0 + clause_if(filter.id is Some, " AND id = ?"@));
    if filter.job_detail_id.is_some() {
        push_str(&mut sql, " AND job_detail_id = ?");
    }
    let ghost s2 = sql@;
    assert(s2 =~= s1 + clause_if(filter.job_detail_id is Some, " AND job_detail_id = ?"@));
    if filter.filename.is_some() {
        push_str(&mut sql, " AND filename = ?");
    }
    let ghost s3 = sql@;
    assert(s3 =~= s2 + clause_if(filter.filename is Some, " AND filename = ?"@));
    if filter.status.is_some() {
        push_str(&mut sql, " AND status = ?");
    }
    let ghost s4 = sql@;
    assert(s4 =~= s3 + clause_if(filter.status is Some, " AND status = ?"@));
    if filter.created_at.is_some() {
        push_str(&mut sql, " AND created_at = ?");
    }
    let ghost s5 = sql@;
    assert(s5 =~= s4 + clause_if(filter.created_at is Some, " AND created_at = ?"@));
    if filter.deleted_at.is_some() {
        push_str(&mut sql, " AND deleted_at = ?");
    }
    assert(sql@ =~= s5 + clause_if(filter.deleted_at is Some, " AND deleted_at = ?"@));
    sql
}

} // verus!
