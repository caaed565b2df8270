//! The rows of the evaluator, rule, benefit, job, job detail and job file
//! tables, as plain values.

use vstd::prelude::*;
use crate::json::{JsonValue, JsonNumber, JsonView, jview, int_view, int_value, values_view, copy_json};
use crate::time::{UtcTime, naive_iso_text, utc_rfc3339_text, naive_iso, utc_rfc3339};
use crate::text::{str_is, chars_of, decimal, decimal_i64, push_decimal, push_decimal_i64};

verus! {

/// An evaluator: a named set of rules, valid between two dates.
#[derive(Debug)]
pub struct EvaluatorModel {
    pub id: i64,
    pub name: String,
    pub start_valid_date: Option<UtcTime>,
    pub end_valid_date: Option<UtcTime>,
    pub is_active: bool,
    pub running_frequency: Option<String>,
    pub created_at: Option<UtcTime>,
    pub created_by: Option<i64>,
    pub updated_at: Option<UtcTime>,
    pub updated_by: Option<i64>,
    pub deleted_at: Option<UtcTime>,
    pub deleted_by: Option<i64>,
}

/// A rule of an evaluator: a decision graph and the inputs it needs.
#[derive(Debug)]
pub struct RuleModel {
    pub id: i64,
    pub evaluator_id: i64,
    pub content: JsonValue,
    pub input: JsonValue,
    pub version: Option<i32>,
    pub description: Option<String>,
    pub is_active: bool,
    pub created_at: Option<UtcTime>,
    pub created_by: Option<i64>,
}

/// A benefit granted to a customer by an evaluator.
#[derive(Debug)]
pub struct BenefitModel {
    pub id: i64,
    pub evaluator_id: i64,
    pub customer_id: i64,
    pub value: Option<JsonValue>,
    pub description: Option<String>,
    pub expired_at: Option<UtcTime>,
    pub created_at: Option<UtcTime>,
}

/// A stored ingestion job.
#[derive(Debug)]
pub struct JobModel {
    pub id: u64,
    pub evaluator_id: u64,
    pub status: String,
    pub created_at: Option<UtcTime>,
    pub updated_at: Option<UtcTime>,
}

/// A stored input of a job.
#[derive(Debug)]
pub struct JobDetailModel {
    pub id: u64,
    pub job_id: u64,
    pub entity: String,
    pub key: String,
    pub file_start_range: Option<UtcTime>,
    pub file_end_range: Option<UtcTime>,
}

/// A stored file of a job's input.
#[derive(Debug)]
pub struct JobFileModel {
    pub id: u64,
    pub job_detail_id: u64,
    pub filename: String,
    pub status: String,
    pub created_at: Option<UtcTime>,
    pub updated_at: Option<UtcTime>,
}


// ---------------------------------------------------------------------------
// columns and their values
// ---------------------------------------------------------------------------

/// A row whose columns can be read as JSON values (as the row serializes).
pub trait ModelRow {
    /// The dates of the row are instants `chrono` can represent.
    spec fn valid(&self) -> bool;

    /// The JSON value of a column; `null` for a name that is no column.
    spec fn column_view(&self, col: Seq<char>) -> JsonView;

    fn column_value(&self, col: &str) -> (r: JsonValue)
        requires
            self.valid(),
        ensures
            jview(r) == self.column_view(col@),
    ;
}

/// The values of the named columns of a row, in order.
pub fn values_of<R: ModelRow>(row: &R, columns: &Vec<String>) -> (r: Vec<JsonValue>)
    requires
        row.valid(),
    ensures
        values_view(r@) == columns@.map_values(|c: String| row.column_view(c@)),
{
    let mut out: Vec<JsonValue> = Vec::new();
    let mut i: usize = 0;
    while i < columns.len()
        invariant
            i <= columns@.len(),
            row.valid(),
            values_view(out@) == columns@.take(i as int).map_values(|c: String| row.column_view(c@)),
        decreases columns.len() - i,
    {
        let v = row.column_value(columns[i].as_str());
        let ghost before = out@;
        out.push(v);
        assert(values_view(out@) =~= values_view(before).push(jview(v)));
        assert(columns@.take(i + 1) =~= columns@.take(i as int).push(columns@[i as int]));
        i = i + 1;
    }
    assert(columns@.take(columns@.len() as int) =~= columns@);
    out
}

fn named(col: &str, name: &str) -> (r: bool)
    ensures
        r == (col@ == name@),
{
    str_is(col, &chars_of(name))
}

fn text(s: &str) -> (r: String)
    ensures
        r@ == s@,
{
    s.to_owned()
}

/// A date that `chrono` can represent, when there is one.
pub open spec fn date_ok(o: Option<UtcTime>) -> bool {
    o matches Some(t) ==> t.wf()
}

pub open spec fn opt_int_view(o: Option<i64>) -> JsonView {
    match o {
        Some(n) => int_view(n),
        None => JsonView::Null,
    }
}

pub open spec fn opt_str_view(o: Option<String>) -> JsonView {
    match o {
        Some(s) => JsonView::Str(s@),
        None => JsonView::Null,
    }
}

/// A `NaiveDateTime` column.
pub open spec fn naive_view(o: Option<UtcTime>) -> JsonView {
    match o {
        Some(t) => JsonView::Str(naive_iso_text(t)),
        None => JsonView::Null,
    }
}

/// A `DateTime<Utc>` column.
pub open spec fn utc_view(o: Option<UtcTime>) -> JsonView {
    match o {
        Some(t) => JsonView::Str(utc_rfc3339_text(t)),
        None => JsonView::Null,
    }
}

fn opt_int(o: Option<i64>) -> (r: JsonValue)
    ensures
        jview(r) == opt_int_view(o),
{
    match o {
        Some(n) => int_value(n),
        None => JsonValue::Null,
    }
}

fn opt_text(o: &Option<String>) -> (r: JsonValue)
    ensures
        jview(r) == opt_str_view(*o),
{
    match o {
        Some(s) => JsonValue::Str(s.clone()),
        None => JsonValue::Null,
    }
}

fn naive_value(o: Option<UtcTime>) -> (r: JsonValue)
    requires
        date_ok(o),
    ensures
        jview(r) == naive_view(o),
{
    match o {
        Some(t) => JsonValue::Str(naive_iso(&t)),
        None => JsonValue::Null,
    }
}

fn utc_value(o: Option<UtcTime>) -> (r: JsonValue)
    requires
        date_ok(o),
    ensures
        jview(r) == utc_view(o),
{
    match o {
        Some(t) => JsonValue::Str(utc_rfc3339(&t)),
        None => JsonValue::Null,
    }
}

fn unsigned(n: u64) -> (r: JsonValue)
    ensures
        jview(r) == JsonView::PosInt(n),
{
    JsonValue::Number(JsonNumber::PosInt(n))
}

pub open spec fn evaluator_columns() -> Seq<Seq<char>> {
    seq![
        "id"@,
        "name"@,
        "start_valid_date"@,
        "end_valid_date"@,
        "is_active"@,
        "running_frequency"@,
        "created_at"@,
        "created_by"@,
        "updated_at"@,
        "updated_by"@,
        "deleted_at"@,
        "deleted_by"@,
    ]
}

impl ModelRow for EvaluatorModel {
    open spec fn valid(&self) -> bool {
        date_ok(self.start_valid_date) && date_ok(self.end_valid_date) && date_ok(self.created_at) && date_ok(
            self.updated_at,
        ) && date_ok(self.deleted_at)
    }

    open spec fn column_view(&self, col: Seq<char>) -> JsonView {
        if col == "id"@ {
            int_view(self.id)
        } else if col == "name"@ {
            JsonView::Str(self.name@)
        } else if col == "start_valid_date"@ {
            naive_view(self.start_valid_date)
        } else if col == "end_valid_date"@ {
            naive_view(self.end_valid_date)
        } else if col == "is_active"@ {
            JsonView::Bool(self.is_active)
        } else if col == "running_frequency"@ {
            opt_str_view(self.running_frequency)
        } else if col == "created_at"@ {
            naive_view(self.created_at)
        } else if col == "created_by"@ {
            opt_int_view(self.created_by)
        } else if col == "updated_at"@ {
            naive_view(self.updated_at)
        } else if col == "updated_by"@ {
            opt_int_view(self.updated_by)
        } else if col == "deleted_at"@ {
            naive_view(self.deleted_at)
        } else if col == "deleted_by"@ {
            opt_int_view(self.deleted_by)
        } else {
            JsonView::Null
        }
    }

    fn column_value(&self, col: &str) -> (r: JsonValue) {
        if named(col, "id") {
            int_value(self.id)
        } else if named(col, "name") {
            JsonValue::Str(self.name.clone())
        } else if named(col, "start_valid_date") {
            naive_value(self.start_valid_date)
        } else if named(col, "end_valid_date") {
            naive_value(self.end_valid_date)
        } else if named(col, "is_active") {
            JsonValue::Bool(self.is_active)
        } else if named(col, "running_frequency") {
            opt_text(&self.running_frequency)
        } else if named(col, "created_at") {
            naive_value(self.created_at)
        } else if named(col, "created_by") {
            opt_int(self.created_by)
        } else if named(col, "updated_at") {
            naive_value(self.updated_at)
        } else if named(col, "updated_by") {
            opt_int(self.updated_by)
        } else if named(col, "deleted_at") {
            naive_value(self.deleted_at)
        } else if named(col, "deleted_by") {
            opt_int(self.deleted_by)
        } else {
            JsonValue::Null
        }
    }
}

impl EvaluatorModel {
    /// The table of the rows.
    pub fn table_name(&self) -> (r: &'static str)
        ensures
            r@ == "evaluator"@,
    {
        "evaluator"
    }

    /// The columns, in table order.
    pub fn get_columns(&self) -> (r: Vec<String>)
        ensures
            r.deep_view() == evaluator_columns(),
    {
        let mut r: Vec<String> = Vec::new();
        r.push(text("id"));
        r.push(text("name"));
        r.push(text("start_valid_date"));
        r.push(text("end_valid_date"));
        r.push(text("is_active"));
        r.push(text("running_frequency"));
        r.push(text("created_at"));
        r.push(text("created_by"));
        r.push(text("updated_at"));
        r.push(text("updated_by"));
        r.push(text("deleted_at"));
        r.push(text("deleted_by"));
        assert(r.deep_view() =~= evaluator_columns());
        r
    }

    /// The values of the named columns (`null` for an unknown name).
    pub fn get_val_struct(&self, columns: &Vec<String>) -> (r: Vec<JsonValue>)
        requires
            self.valid(),
        ensures
            values_view(r@) == columns@.map_values(|c: String| self.column_view(c@)),
    {
        values_of(self, columns)
    }
}

pub open spec fn opt_i32_view(o: Option<i32>) -> JsonView {
    match o {
        Some(n) => int_view(n as i64),
        None => JsonView::Null,
    }
}

pub open spec fn opt_json_view(o: Option<JsonValue>) -> JsonView {
    match o {
        Some(v) => jview(v),
        None => JsonView::Null,
    }
}

fn opt_i32(o: Option<i32>) -> (r: JsonValue)
    ensures
        jview(r) == opt_i32_view(o),
{
    match o {
        Some(n) => int_value(n as i64),
        None => JsonValue::Null,
    }
}

fn opt_json(o: &Option<JsonValue>) -> (r: JsonValue)
    ensures
        jview(r) == opt_json_view(*o),
{
    match o {
        Some(v) => copy_json(v),
        None => JsonValue::Null,
    }
}

pub open spec fn rule_columns() -> Seq<Seq<char>> {
    seq![
        "id"@,
        "evaluator_id"@,
        "content"@,
        "input"@,
        "version"@,
        "description"@,
        "is_active"@,
        "created_at"@,
        "created_by"@,
    ]
}

impl ModelRow for RuleModel {
    open spec fn valid(&self) -> bool {
        date_ok(self.created_at)
    }

    open spec fn column_view(&self, col: Seq<char>) -> JsonView {
        if col == "id"@ {
            int_view(self.id)
        } else if col == "evaluator_id"@ {
            int_view(self.evaluator_id)
        } else if col == "content"@ {
            jview(self.content)
        } else if col == "input"@ {
            jview(self.input)
        } else if col == "version"@ {
            opt_i32_view(self.version)
        } else if col == "description"@ {
            opt_str_view(self.description)
        } else if col == "is_active"@ {
            JsonView::Bool(self.is_active)
        } else if col == "created_at"@ {
            naive_view(self.created_at)
        } else if col == "created_by"@ {
            opt_int_view(self.created_by)
        } else {
            JsonView::Null
        }
    }

    fn column_value(&self, col: &str) -> (r: JsonValue) {
        if named(col, "id") {
            int_value(self.id)
        } else if named(col, "evaluator_id") {
            int_value(self.evaluator_id)
        } else if named(col, "content") {
            copy_json(&self.content)
        } else if named(col, "input") {
            copy_json(&self.input)
        } else if named(col, "version") {
            opt_i32(self.version)
        } else if named(col, "description") {
            opt_text(&self.description)
        } else if named(col, "is_active") {
            JsonValue::Bool(self.is_active)
        } else if named(col, "created_at") {
            naive_value(self.created_at)
        } else if named(col, "created_by") {
            opt_int(self.created_by)
        } else {
            JsonValue::Null
        }
    }
}

impl RuleModel {
    /// The table of the rows.
    pub fn table_name(&self) -> (r: &'static str)
        ensures
            r@ == "rule"@,
    {
        "rule"
    }

    /// The columns, in table order.
    pub fn get_columns(&self) -> (r: Vec<String>)
        ensures
            r.deep_view() == rule_columns(),
    {
        let mut r: Vec<String> = Vec::new();
        r.push(text("id"));
        r.push(text("evaluator_id"));
        r.push(text("content"));
        r.push(text("input"));
        r.push(text("version"));
        r.push(text("description"));
        r.push(text("is_active"));
        r.push(text("created_at"));
        r.push(text("created_by"));
        assert(r.deep_view() =~= rule_columns());
        r
    }

    /// The values of the named columns (`null` for an unknown name).
    pub fn get_val_struct(&self, columns: &Vec<String>) -> (r: Vec<JsonValue>)
        requires
            self.valid(),
        ensures
            values_view(r@) == columns@.map_values(|c: String| self.column_view(c@)),
    {
        values_of(self, columns)
    }
}

pub open spec fn benefit_columns() -> Seq<Seq<char>> {
    seq![
        "id"@,
        "evaluator_id"@,
        "customer_id"@,
        "value"@,
        "description"@,
        "expired_at"@,
        "created_at"@,
    ]
}

impl ModelRow for BenefitModel {
    open spec fn valid(&self) -> bool {
        date_ok(self.expired_at) && date_ok(self.created_at)
    }

    open spec fn column_view(&self, col: Seq<char>) -> JsonView {
        if col == "id"@ {
            int_view(self.id)
        } else if col == "evaluator_id"@ {
            int_view(self.evaluator_id)
        } else if col == "customer_id"@ {
            int_view(self.customer_id)
        } else if col == "value"@ {
            opt_json_view(self.value)
        } else if col == "description"@ {
            opt_str_view(self.description)
        } else if col == "expired_at"@ {
            naive_view(self.expired_at)
        } else if col == "created_at"@ {
            naive_view(self.created_at)
        } else {
            JsonView::Null
        }
    }

    fn column_value(&self, col: &str) -> (r: JsonValue) {
        if named(col, "id") {
            int_value(self.id)
        } else if named(col, "evaluator_id") {
            int_value(self.evaluator_id)
        } else if named(col, "customer_id") {
            int_value(self.customer_id)
        } else if named(col, "value") {
            opt_json(&self.value)
        } else if named(col, "description") {
            opt_text(&self.description)
        } else if named(col, "expired_at") {
            naive_value(self.expired_at)
        } else if named(col, "created_at") {
            naive_value(self.created_at)
        } else {
            JsonValue::Null
        }
    }
}

impl BenefitModel {
    /// The table of the rows.
    pub fn table_name(&self) -> (r: &'static str)
        ensures
            r@ == "benefit"@,
    {
        "benefit"
    }

    /// The columns, in table order.
    pub fn get_columns(&self) -> (r: Vec<String>)
        ensures
            r.deep_view() == benefit_columns(),
    {
        let mut r: Vec<String> = Vec::new();
        r.push(text("id"));
        r.push(text("evaluator_id"));
        r.push(text("customer_id"));
        r.push(text("value"));
        r.push(text("description"));
        r.push(text("expired_at"));
        r.push(text("created_at"));
        assert(r.deep_view() =~= benefit_columns());
        r
    }

    /// The values of the named columns (`null` for an unknown name).
    pub fn get_val_struct(&self, columns: &Vec<String>) -> (r: Vec<JsonValue>)
        requires
            self.valid(),
        ensures
            values_view(r@) == columns@.map_values(|c: String| self.column_view(c@)),
    {
        values_of(self, columns)
    }
}

pub open spec fn job_columns() -> Seq<Seq<char>> {
    seq![
        "id"@,
        "evaluator_id"@,
        "status"@,
        "created_at"@,
        "updated_at"@,
    ]
}

impl ModelRow for JobModel {
    open spec fn valid(&self) -> bool {
        date_ok(self.created_at) && date_ok(self.updated_at)
    }

    open spec fn column_view(&self, col: Seq<char>) -> JsonView {
        if col == "id"@ {
            JsonView::PosInt(self.id)
        } else if col == "evaluator_id"@ {
            JsonView::PosInt(self.evaluator_id)
        } else if col == "status"@ {
            JsonView::Str(self.status@)
        } else if col == "created_at"@ {
            utc_view(self.created_at)
        } else if col == "updated_at"@ {
            utc_view(self.updated_at)
        } else {
            JsonView::Null
        }
    }

    fn column_value(&self, col: &str) -> (r: JsonValue) {
        if named(col, "id") {
            unsigned(self.id)
        } else if named(col, "evaluator_id") {
            unsigned(self.evaluator_id)
        } else if named(col, "status") {
            JsonValue::Str(self.status.clone())
        } else if named(col, "created_at") {
            utc_value(self.created_at)
        } else if named(col, "updated_at") {
            utc_value(self.updated_at)
        } else {
            JsonValue::Null
        }
    }
}

impl JobModel {
    /// The table of the rows.
    pub fn table_name(&self) -> (r: &'static str)
        ensures
            r@ == "job"@,
    {
        "job"
    }

    /// The columns, in table order.
    pub fn get_columns(&self) -> (r: Vec<String>)
        ensures
            r.deep_view() == job_columns(),
    {
        let mut r: Vec<String> = Vec::new();
        r.push(text("id"));
        r.push(text("evaluator_id"));
        r.push(text("status"));
        r.push(text("created_at"));
        r.push(text("updated_at"));
        assert(r.deep_view() =~= job_columns());
        r
    }

    /// The values of the named columns (`null` for an unknown name).
    pub fn get_val_struct(&self, columns: &Vec<String>) -> (r: Vec<JsonValue>)
        requires
            self.valid(),
        ensures
            values_view(r@) == columns@.map_values(|c: String| self.column_view(c@)),
    {
        values_of(self, columns)
    }
}

pub open spec fn job_detail_columns() -> Seq<Seq<char>> {
    seq![
        "id"@,
        "job_id"@,
        "entity"@,
        "key"@,
        "file_start_range"@,
        "file_end_range"@,
    ]
}

impl ModelRow for JobDetailModel {
    open spec fn valid(&self) -> bool {
        date_ok(self.file_start_range) && date_ok(self.file_end_range)
    }

    open spec fn column_view(&self, col: Seq<char>) -> JsonView {
        if col == "id"@ {
            JsonView::PosInt(self.id)
        } else if col == "job_id"@ {
            JsonView::PosInt(self.job_id)
        } else if col == "entity"@ {
            JsonView::Str(self.entity@)
        } else if col == "key"@ {
            JsonView::Str(self.key@)
        } else if col == "file_start_range"@ {
            utc_view(self.file_start_range)
        } else if col == "file_end_range"@ {
            utc_view(self.file_end_range)
        } else {
            JsonView::Null
        }
    }

    fn column_value(&self, col: &str) -> (r: JsonValue) {
        if named(col, "id") {
            unsigned(self.id)
        } else if named(col, "job_id") {
            unsigned(self.job_id)
        } else if named(col, "entity") {
            JsonValue::Str(self.entity.clone())
        } else if named(col, "key") {
            JsonValue::Str(self.key.clone())
        } else if named(col, "file_start_range") {
            utc_value(self.file_start_range)
        } else if named(col, "file_end_range") {
            utc_value(self.file_end_range)
        } else {
            JsonValue::Null
        }
    }
}

impl JobDetailModel {
    /// The table of the rows.
    pub fn table_name(&self) -> (r: &'static str)
        ensures
            r@ == "job_detail"@,
    {
        "job_detail"
    }

    /// The columns, in table order.
    pub fn get_columns(&self) -> (r: Vec<String>)
        ensures
            r.deep_view() == job_detail_columns(),
    {
        let mut r: Vec<String> = Vec::new();
        r.push(text("id"));
        r.push(text("job_id"));
        r.push(text("entity"));
        r.push(text("key"));
        r.push(text("file_start_range"));
        r.push(text("file_end_range"));
        assert(r.deep_view() =~= job_detail_columns());
        r
    }

    /// The values of the named columns (`null` for an unknown name).
    pub fn get_val_struct(&self, columns: &Vec<String>) -> (r: Vec<JsonValue>)
        requires
            self.valid(),
        ensures
            values_view(r@) == columns@.map_values(|c: String| self.column_view(c@)),
    {
        values_of(self, columns)
    }
}

pub open spec fn job_file_columns() -> Seq<Seq<char>> {
    seq![
        "id"@,
        "job_detail_id"@,
        "filename"@,
        "status"@,
        "created_at"@,
        "updated_at"@,
    ]
}

impl ModelRow for JobFileModel {
    open spec fn valid(&self) -> bool {
        date_ok(self.created_at) && date_ok(self.updated_at)
    }

    open spec fn column_view(&self, col: Seq<char>) -> JsonView {
        if col == "id"@ {
            JsonView::PosInt(self.id)
        } else if col == "job_detail_id"@ {
            JsonView::PosInt(self.job_detail_id)
        } else if col == "filename"@ {
            JsonView::Str(self.filename@)
        } else if col == "status"@ {
            JsonView::Str(self.status@)
        } else if col == "created_at"@ {
            utc_view(self.created_at)
        } else if col == "updated_at"@ {
            utc_view(self.updated_at)
        } else {
            JsonView::Null
        }
    }

    fn column_value(&self, col: &str) -> (r: JsonValue) {
        if named(col, "id") {
            unsigned(self.id)
        } else if named(col, "job_detail_id") {
            unsigned(self.job_detail_id)
        } else if named(col, "filename") {
            JsonValue::Str(self.filename.clone())
        } else if named(col, "status") {
            JsonValue::Str(self.status.clone())
        } else if named(col, "created_at") {
            utc_value(self.created_at)
        } else if named(col, "updated_at") {
            utc_value(self.updated_at)
        } else {
            JsonValue::Null
        }
    }
}

impl JobFileModel {
    /// The table of the rows.
    pub fn table_name(&self) -> (r: &'static str)
        ensures
            r@ == "job_file"@,
    {
        "job_file"
    }

    /// The columns, in table order.
    pub fn get_columns(&self) -> (r: Vec<String>)
        ensures
            r.deep_view() == job_file_columns(),
    {
        let mut r: Vec<String> = Vec::new();
        r.push(text("id"));
        r.push(text("job_detail_id"));
        r.push(text("filename"));
        r.push(text("status"));
        r.push(text("created_at"));
        r.push(text("updated_at"));
        assert(r.deep_view() =~= job_file_columns());
        r
    }

    /// The values of the named columns (`null` for an unknown name).
    pub fn get_val_struct(&self, columns: &Vec<String>) -> (r: Vec<JsonValue>)
        requires
            self.valid(),
        ensures
            values_view(r@) == columns@.map_values(|c: String| self.column_view(c@)),
    {
        values_of(self, columns)
    }
}


// ---------------------------------------------------------------------------
// copies and the rows filed by id
// ---------------------------------------------------------------------------

/// Rows filed under the text of their id.
pub struct ModelsMap<M> {
    entries: Vec<(String, M)>,
}

impl<M> ModelsMap<M> {
    /// The keys and rows, in the order they were filed.
    pub closed spec fn entries(&self) -> Seq<(Seq<char>, M)> {
        self.entries@.map_values(|e: (String, M)| (e.0@, e.1))
    }

    /// A map holding one row.
    fn single(key: String, m: M) -> (r: Self)
        ensures
            r.entries() == seq![(key@, m)],
    {
        let mut entries: Vec<(String, M)> = Vec::new();
        entries.push((key, m));
        let r = ModelsMap { entries };
        assert(r.entries() =~= seq![(key@, m)]);
        r
    }

    /// How many rows are filed.
    pub fn len(&self) -> (n: usize)
        ensures
            n == self.entries().len(),
    {
        self.entries.len()
    }

    /// Whether a row is filed under `key`.
    pub fn contains_key(&self, key: &str) -> (r: bool)
        ensures
            r == exists|i: int| 0 <= i < self.entries().len() && #[trigger] self.entries()[i].0 == key@,
    {
        self.get(key).is_some()
    }

    /// The row filed under `key`, if any (the first one).
    pub fn get(&self, key: &str) -> (r: Option<&M>)
        ensures
            match r {
                Some(m) => exists|i: int|
                    0 <= i < self.entries().len() && #[trigger] self.entries()[i].0 == key@ && self.entries()[i].1
                        == *m && forall|j: int| 0 <= j < i ==> self.entries()[j].0 != key@,
                None => forall|i: int| 0 <= i < self.entries().len() ==> #[trigger] self.entries()[i].0 != key@,
            },
    {
        let k = chars_of(key);
        let mut i: usize = 0;
        while i < self.entries.len()
            invariant
                i <= self.entries@.len(),
                k@ == key@,
                forall|j: int| 0 <= j < i ==> #[trigger] self.entries()[j].0 != key@,
            decreases self.entries.len() - i,
        {
            assert(self.entries()[i as int] == (self.entries@[i as int].0@, self.entries@[i as int].1));
            if str_is(self.entries[i].0.as_str(), &k) {
                assert(self.entries()[i as int].0 == key@);
                return Some(&self.entries[i].1);
            }
            i = i + 1;
        }
        None
    }
}

/// The text of an unsigned id.
fn id_text(n: u64) -> (r: String)
    ensures
        r@ == decimal(n as nat),
{
    let mut r = String::new();
    push_decimal(&mut r, n);
    assert(r@ =~= decimal(n as nat));
    r
}

/// The text of a signed id.
fn signed_id_text(n: i64) -> (r: String)
    ensures
        r@ == decimal_i64(n),
{
    let mut r = String::new();
    push_decimal_i64(&mut r, n);
    assert(r@ =~= decimal_i64(n));
    r
}

fn copy_text(s: &String) -> (r: String)
    ensures
        r@ == s@,
{
    s.clone()
}

fn copy_opt_text(o: &Option<String>) -> (r: Option<String>)
    ensures
        opt_text_view(r) == opt_text_view(*o),
{
    match o {
        Some(s) => Some(copy_text(s)),
        None => None,
    }
}

/// An optional text by its characters.
pub open spec fn opt_text_view(o: Option<String>) -> Option<Seq<char>> {
    match o {
        Some(s) => Some(s@),
        None => None,
    }
}

/// An optional JSON value by its view.
pub open spec fn opt_jview(o: Option<JsonValue>) -> Option<JsonView> {
    match o {
        Some(v) => Some(jview(v)),
        None => None,
    }
}

impl EvaluatorModel {
    /// The two rows hold the same values.
    pub open spec fn same(&self, o: &Self) -> bool {
        &&& self.id == o.id && self.name@ == o.name@ && self.start_valid_date == o.start_valid_date
        &&& self.end_valid_date == o.end_valid_date && self.is_active == o.is_active
        &&& opt_text_view(self.running_frequency) == opt_text_view(o.running_frequency)
        &&& self.created_at == o.created_at && self.created_by == o.created_by
        &&& self.updated_at == o.updated_at && self.updated_by == o.updated_by
        &&& self.deleted_at == o.deleted_at && self.deleted_by == o.deleted_by
    }

    /// A copy of the row.
    pub fn copy(&self) -> (r: Self)
        ensures
            self.same(&r),
    {
        EvaluatorModel {
            id: self.id,
            name: copy_text(&self.name),
            start_valid_date: self.start_valid_date,
            end_valid_date: self.end_valid_date,
            is_active: self.is_active,
            running_frequency: copy_opt_text(&self.running_frequency),
            created_at: self.created_at,
            created_by: self.created_by,
            updated_at: self.updated_at,
            updated_by: self.updated_by,
            deleted_at: self.deleted_at,
            deleted_by: self.deleted_by,
        }
    }

    /// The rows of the model: this one.
    pub fn get_models(&self) -> (r: Vec<Self>)
        ensures
            r@.len() == 1 && self.same(&r@[0]),
    {
        let mut r: Vec<Self> = Vec::new();
        r.push(self.copy());
        r
    }

    /// The rows of the model filed by id: this one under its id.
    pub fn get_models_map(&self) -> (r: ModelsMap<Self>)
        ensures
            r.entries().len() == 1 && r.entries()[0].0 == decimal_i64(self.id) && self.same(&r.entries()[0].1),
    {
        ModelsMap::single(signed_id_text(self.id), self.copy())
    }
}

impl RuleModel {
    /// The two rows hold the same values.
    pub open spec fn same(&self, o: &Self) -> bool {
        &&& self.id == o.id && self.evaluator_id == o.evaluator_id
        &&& jview(self.content) == jview(o.content) && jview(self.input) == jview(o.input)
        &&& self.version == o.version && opt_text_view(self.description) == opt_text_view(o.description)
        &&& self.is_active == o.is_active && self.created_at == o.created_at && self.created_by == o.created_by
    }

    /// A copy of the row.
    pub fn copy(&self) -> (r: Self)
        ensures
            self.same(&r),
    {
        RuleModel {
            id: self.id,
            evaluator_id: self.evaluator_id,
            content: copy_json(&self.content),
            input: copy_json(&self.input),
            version: self.version,
            description: copy_opt_text(&self.description),
            is_active: self.is_active,
            created_at: self.created_at,
            created_by: self.created_by,
        }
    }

    /// The rows of the model: this one.
    pub fn get_models(&self) -> (r: Vec<Self>)
        ensures
            r@.len() == 1 && self.same(&r@[0]),
    {
        let mut r: Vec<Self> = Vec::new();
        r.push(self.copy());
        r
    }

    /// The rows of the model filed by id: this one under its id.
    pub fn get_models_map(&self) -> (r: ModelsMap<Self>)
        ensures
            r.entries().len() == 1 && r.entries()[0].0 == decimal_i64(self.id) && self.same(&r.entries()[0].1),
    {
        ModelsMap::single(signed_id_text(self.id), self.copy())
    }
}

impl BenefitModel {
    /// The two rows hold the same values.
    pub open spec fn same(&self, o: &Self) -> bool {
        &&& self.id == o.id && self.evaluator_id == o.evaluator_id && self.customer_id == o.customer_id
        &&& opt_jview(self.value) == opt_jview(o.value)
        &&& opt_text_view(self.description) == opt_text_view(o.description)
        &&& self.expired_at == o.expired_at && self.created_at == o.created_at
    }

    /// A copy of the row.
    pub fn copy(&self) -> (r: Self)
        ensures
            self.same(&r),
    {
        BenefitModel {
            id: self.id,
            evaluator_id: self.evaluator_id,
            customer_id: self.customer_id,
            value: match &self.value {
                Some(v) => Some(copy_json(v)),
                None => None,
            },
            description: copy_opt_text(&self.description),
            expired_at: self.expired_at,
            created_at: self.created_at,
        }
    }

    /// The rows of the model: this one.
    pub fn get_models(&self) -> (r: Vec<Self>)
        ensures
            r@.len() == 1 && self.same(&r@[0]),
    {
        let mut r: Vec<Self> = Vec::new();
        r.push(self.copy());
        r
    }

    /// The rows of the model filed by id: this one under its id.
    pub fn get_models_map(&self) -> (r: ModelsMap<Self>)
        ensures
            r.entries().len() == 1 && r.entries()[0].0 == decimal_i64(self.id) && self.same(&r.entries()[0].1),
    {
        ModelsMap::single(signed_id_text(self.id), self.copy())
    }
}

impl JobModel {
    /// The two rows hold the same values.
    pub open spec fn same(&self, o: &Self) -> bool {
        &&& self.id == o.id && self.evaluator_id == o.evaluator_id && self.status@ == o.status@
        &&& self.created_at == o.created_at && self.updated_at == o.updated_at
    }

    /// A copy of the row.
    pub fn copy(&self) -> (r: Self)
        ensures
            self.same(&r),
    {
        JobModel {
            id: self.id,
            evaluator_id: self.evaluator_id,
            status: copy_text(&self.status),
            created_at: self.created_at,
            updated_at: self.updated_at,
        }
    }

    /// The rows of the model filed by id: this one under its id.
    pub fn get_models_map(&self) -> (r: ModelsMap<Self>)
        ensures
            r.entries().len() == 1 && r.entries()[0].0 == decimal(self.id as nat) && self.same(&r.entries()[0].1),
    {
        ModelsMap::single(id_text(self.id), self.copy())
    }
}

impl JobDetailModel {
    /// The two rows hold the same values.
    pub open spec fn same(&self, o: &Self) -> bool {
        &&& self.id == o.id && self.job_id == o.job_id && self.entity@ == o.entity@ && self.key@ == o.key@
        &&& self.file_start_range == o.file_start_range && self.file_end_range == o.file_end_range
    }

    /// A copy of the row.
    pub fn copy(&self) -> (r: Self)
        ensures
            self.same(&r),
    {
        JobDetailModel {
            id: self.id,
            job_id: self.job_id,
            entity: copy_text(&self.entity),
            key: copy_text(&self.key),
            file_start_range: self.file_start_range,
            file_end_range: self.file_end_range,
        }
    }

    /// The rows of the model filed by id: this one under its id.
    pub fn get_models_map(&self) -> (r: ModelsMap<Self>)
        ensures
            r.entries().len() == 1 && r.entries()[0].0 == decimal(self.id as nat) && self.same(&r.entries()[0].1),
    {
        ModelsMap::single(id_text(self.id), self.copy())
    }
}

impl JobFileModel {
    /// The two rows hold the same values.
    pub open spec fn same(&self, o: &Self) -> bool {
        &&& self.id == o.id && self.job_detail_id == o.job_detail_id && self.filename@ == o.filename@
        &&& self.status@ == o.status@ && self.created_at == o.created_at && self.updated_at == o.updated_at
    }

    /// A copy of the row.
    pub fn copy(&self) -> (r: Self)
        ensures
            self.same(&r),
    {
        JobFileModel {
            id: self.id,
            job_detail_id: self.job_detail_id,
            filename: copy_text(&self.filename),
            status: copy_text(&self.status),
            created_at: self.created_at,
            updated_at: self.updated_at,
        }
    }

    /// The rows of the model filed by id: this one under its id.
    pub fn get_models_map(&self) -> (r: ModelsMap<Self>)
        ensures
            r.entries().len() == 1 && r.entries()[0].0 == decimal(self.id as nat) && self.same(&r.entries()[0].1),
    {
        ModelsMap::single(id_text(self.id), self.copy())
    }
}

} // verus!
