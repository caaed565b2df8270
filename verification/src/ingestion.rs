//! Ingestion: jobs with their inputs and time ranges, the date and file
//! name logic that turns an input into files, the rows stored for a
//! request, and the jobs forwarded to the coordinator.

use vstd::prelude::*;
use crate::messages::{SubmitJobRequest, SubmitJobRequestView, clone_strings};
use crate::text::{
    chars_of, chars_eq, trim, trim_bounds, string_of, to_lowercase, lowercase, push_str, push_char,
    str_is,
};
use crate::time::{
    UtcTime, valid_day, MAX_DAY, MIN_DAY, time_le, utc_le, start_of_day, end_of_day, rfc3339_instant,
    naive_datetime_parse, naive_date_parse, compact_date, parse_rfc3339, parse_naive_datetime,
    parse_naive_date, format_compact_date,
};

verus! {

/// An owned copy of a literal.
fn text(s: &str) -> (r: String)
    ensures
        r@ == s@,
{
    s.to_owned()
}

/// A copy of a string.
fn copy_string(s: &String) -> (r: String)
    ensures
        r@ == s@,
{
    s.clone()
}

/// `s.trim()` as a string.
fn trimmed_str(s: &str) -> (r: String)
    ensures
        r@ == trim(s@),
{
    let v = chars_of(s);
    let (lo, hi) = trim_bounds(&v, 0, v.len());
    assert(v@.subrange(0, v@.len() as int) =~= s@);
    string_of(&v, lo, hi)
}

// ---------------------------------------------------------------------------
// dates
// ---------------------------------------------------------------------------

pub open spec fn fmt_t() -> Seq<char> {
    "%Y-%m-%dT%H:%M:%S"@
}

pub open spec fn fmt_t_frac() -> Seq<char> {
    "%Y-%m-%dT%H:%M:%S%.f"@
}

pub open spec fn fmt_space() -> Seq<char> {
    "%Y-%m-%d %H:%M:%S"@
}

pub open spec fn fmt_space_frac() -> Seq<char> {
    "%Y-%m-%d %H:%M:%S%.f"@
}

pub open spec fn fmt_date() -> Seq<char> {
    "%Y-%m-%d"@
}

/// What `parse_datetime` makes of a trimmed, non-empty text: RFC 3339 (with
/// its offset, taken to UTC), else a date and time with `T` or a space
/// (fractions of a second allowed) read as UTC, else a date at midnight.
pub open spec fn datetime_of(t: Seq<char>) -> Option<UtcTime> {
    match rfc3339_instant(t) {
        Some(x) => Some(x),
        None => match naive_datetime_parse(t, fmt_t()) {
            Some(x) => Some(x),
            None => match naive_datetime_parse(t, fmt_t_frac()) {
                Some(x) => Some(x),
                None => match naive_datetime_parse(t, fmt_space()) {
                    Some(x) => Some(x),
                    None => match naive_datetime_parse(t, fmt_space_frac()) {
                        Some(x) => Some(x),
                        None => match naive_datetime_parse(t, fmt_date()) {
                            Some(x) => Some(x),
                            None => match naive_date_parse(t, fmt_date()) {
                                Some(d) => Some(start_of_day(d)),
                                None => None,
                            },
                        },
                    },
                },
            },
        },
    }
}

/// Parses a date and time (see [`datetime_of`]); fails with `empty
/// datetime` for a blank text and `invalid datetime '<text>'` otherwise.
pub fn parse_datetime(s: &str) -> (r: Result<UtcTime, String>)
    ensures
        ({
            let t = trim(s@);
            match r {
                Ok(x) => t.len() > 0 && datetime_of(t) == Some(x) && x.wf(),
                Err(m) => if t.len() == 0 {
                    m@ == "empty datetime"@
                } else {
                    datetime_of(t) is None && m@ == "invalid datetime '"@ + t + "'"@
                },
            }
        }),
{
    let t = trimmed_str(s);
    let ts = t.as_str();
    if ts.is_empty() {
        return Err(text("empty datetime"));
    }
    proof {
        reveal_strlit("%Y-%m-%dT%H:%M:%S");
        reveal_strlit("%Y-%m-%dT%H:%M:%S%.f");
        reveal_strlit("%Y-%m-%d %H:%M:%S");
        reveal_strlit("%Y-%m-%d %H:%M:%S%.f");
        reveal_strlit("%Y-%m-%d");
    }
    if let Some(x) = parse_rfc3339(ts) {
        return Ok(x);
    }
    if let Some(x) = parse_naive_datetime(ts, "%Y-%m-%dT%H:%M:%S") {
        return Ok(x);
    }
    if let Some(x) = parse_naive_datetime(ts, "%Y-%m-%dT%H:%M:%S%.f") {
        return Ok(x);
    }
    if let Some(x) = parse_naive_datetime(ts, "%Y-%m-%d %H:%M:%S") {
        return Ok(x);
    }
    if let Some(x) = parse_naive_datetime(ts, "%Y-%m-%d %H:%M:%S%.f") {
        return Ok(x);
    }
    if let Some(x) = parse_naive_datetime(ts, "%Y-%m-%d") {
        return Ok(x);
    }
    if let Some(d) = parse_naive_date(ts, "%Y-%m-%d") {
        return Ok(UtcTime { day: d, secs: 0, nanos: 0 });
    }
    let mut m = text("invalid datetime '");
    push_str(&mut m, ts);
    push_char(&mut m, '\'');
    assert(m@ =~= "invalid datetime '"@ + t@ + "'"@) by {
        reveal_strlit("'");
        reveal_strlit("invalid datetime '");
    }
    Err(m)
}

/// A time range of an input: `between` a start and an end, or `named`
/// (`today`, `yesterday`).
#[derive(Debug)]
pub struct TimeRange {
    pub range_type: String,
    pub value: String,
    pub start: String,
    pub end: String,
}

/// The plain values of a time range: type, value, start, end.
pub type TimeRangeView = (Seq<char>, Seq<char>, Seq<char>, Seq<char>);

impl View for TimeRange {
    type V = TimeRangeView;

    open spec fn view(&self) -> TimeRangeView {
        (self.range_type@, self.value@, self.start@, self.end@)
    }
}

impl TimeRange {
    /// A copy with the same texts.
    pub fn copy(&self) -> (r: TimeRange)
        ensures
            r@ == self@,
    {
        TimeRange {
            range_type: copy_string(&self.range_type),
            value: copy_string(&self.value),
            start: copy_string(&self.start),
            end: copy_string(&self.end),
        }
    }
}

/// The whole of a day: midnight to 23:59:59.
pub open spec fn day_range(day: i32) -> (UtcTime, UtcTime) {
    (start_of_day(day), end_of_day(day))
}

/// The range a time range stands for, `today` being the current UTC day:
/// `between` gives its two instants in order (today when either does not
/// parse); `named` gives yesterday for `yesterday` and today otherwise; a
/// missing range or another type gives today. Type and value are compared
/// trimmed and in lowercase.
pub open spec fn resolve_spec(tr: Option<TimeRangeView>, today: i32) -> (UtcTime, UtcTime) {
    match tr {
        None => day_range(today),
        Some(r) => {
            let t = lowercase(trim(r.0));
            if t == "between"@ {
                match (parse_result(r.2), parse_result(r.3)) {
                    (Some(s), Some(e)) => if time_le(s, e) {
                        (s, e)
                    } else {
                        (e, s)
                    },
                    _ => day_range(today),
                }
            } else if t == "named"@ {
                let v = lowercase(trim(r.1));
                if v == "yesterday"@ {
                    day_range((today - 1) as i32)
                } else {
                    day_range(today)
                }
            } else {
                day_range(today)
            }
        },
    }
}

/// What `parse_datetime` gives for a text, when it succeeds.
pub open spec fn parse_result(s: Seq<char>) -> Option<UtcTime> {
    let t = trim(s);
    if t.len() == 0 {
        None
    } else {
        datetime_of(t)
    }
}

fn parse_ok(s: &str) -> (r: Option<UtcTime>)
    ensures
        r == parse_result(s@),
        r matches Some(x) ==> x.wf(),
{
    match parse_datetime(s) {
        Ok(x) => Some(x),
        Err(_) => None,
    }
}

/// Resolves an input's time range (see [`resolve_spec`]); `today` is the
/// current UTC day.
pub fn resolve_time_range(tr: Option<&TimeRange>, today: i32) -> (r: (UtcTime, UtcTime))
    requires
        valid_day(today),
        today > MIN_DAY,
    ensures
        r == resolve_spec(
            match tr {
                Some(x) => Some(x@),
                None => None,
            },
            today,
        ),
        r.0.wf() && r.1.wf(),
{
    let today_range = (UtcTime { day: today, secs: 0, nanos: 0 }, UtcTime { day: today, secs: 86399, nanos: 0 });
    match tr {
        None => today_range,
        Some(r) => {
            let tt = trimmed_str(r.range_type.as_str());
            let t = to_lowercase(tt.as_str());
            proof {
                reveal_strlit("between");
                reveal_strlit("named");
                reveal_strlit("today");
                reveal_strlit("yesterday");
            }
            if str_is(t.as_str(), &vec!['b', 'e', 't', 'w', 'e', 'e', 'n']) {
                assert(seq!['b', 'e', 't', 'w', 'e', 'e', 'n'] =~= "between"@);
                let s = parse_ok(r.start.as_str());
                let e = parse_ok(r.end.as_str());
                match (s, e) {
                    (Some(s), Some(e)) => if utc_le(&s, &e) {
                        (s, e)
                    } else {
                        (e, s)
                    },
                    _ => today_range,
                }
            } else if str_is(t.as_str(), &vec!['n', 'a', 'm', 'e', 'd']) {
                assert(seq!['b', 'e', 't', 'w', 'e', 'e', 'n'] =~= "between"@);
                assert(seq!['n', 'a', 'm', 'e', 'd'] =~= "named"@);
                let vt = trimmed_str(r.value.as_str());
                let v = to_lowercase(vt.as_str());
                let is_today = str_is(v.as_str(), &vec!['t', 'o', 'd', 'a', 'y']) || v.as_str().is_empty();
                assert(seq!['t', 'o', 'd', 'a', 'y'] =~= "today"@);
                assert(seq!['y', 'e', 's', 't', 'e', 'r', 'd', 'a', 'y'] =~= "yesterday"@);
                if !is_today && str_is(v.as_str(), &vec!['y', 'e', 's', 't', 'e', 'r', 'd', 'a', 'y']) {
                    let y = today - 1;
                    (UtcTime { day: y, secs: 0, nanos: 0 }, UtcTime { day: y, secs: 86399, nanos: 0 })
                } else {
                    today_range
                }
            } else {
                assert(seq!['b', 'e', 't', 'w', 'e', 'e', 'n'] =~= "between"@);
                assert(seq!['n', 'a', 'm', 'e', 'd'] =~= "named"@);
                today_range
            }
        },
    }
}

/// The days from `a` to `b`, both included, as transaction file names.
pub open spec fn transaction_files(a: int, b: int) -> Seq<Seq<char>>
    decreases b - a + 1,
{
    if a > b {
        Seq::empty()
    } else {
        transaction_files(a, b - 1).push("transaction"@ + compact_date(b as i32) + ".txt"@)
    }
}

/// The files of an input: for the entity `transaction`, one
/// `transaction{YYYYMMDD}.txt` per day from the earlier to the later day,
/// both included; `customer.txt` for `customer` or a blank entity; else
/// `{entity}.txt`. The entity is compared trimmed and in lowercase.
pub open spec fn files_spec(entity: Seq<char>, start: UtcTime, end: UtcTime) -> Seq<Seq<char>> {
    let e = lowercase(trim(entity));
    if e == "transaction"@ {
        if start.day <= end.day {
            transaction_files(start.day as int, end.day as int)
        } else {
            transaction_files(end.day as int, start.day as int)
        }
    } else if e == "customer"@ || e.len() == 0 {
        seq!["customer.txt"@]
    } else {
        seq![e + ".txt"@]
    }
}

/// The file names of an input's entity over a range of days.
pub fn filenames_for_entity(entity: &str, start: UtcTime, end: UtcTime) -> (r: Vec<String>)
    requires
        valid_day(start.day),
        valid_day(end.day),
        lowercase(trim(entity@)) == "transaction"@ ==> start.day < MAX_DAY && end.day < MAX_DAY,
    ensures
        r.deep_view() == files_spec(entity@, start, end),
{
    let et = trimmed_str(entity);
    let e = to_lowercase(et.as_str());
    proof {
        reveal_strlit("transaction");
        reveal_strlit("customer");
        reveal_strlit("customer.txt");
        reveal_strlit(".txt");
    }
    let mut out: Vec<String> = Vec::new();
    if str_is(e.as_str(), &vec!['t', 'r', 'a', 'n', 's', 'a', 'c', 't', 'i', 'o', 'n']) {
        assert(seq!['t', 'r', 'a', 'n', 's', 'a', 'c', 't', 'i', 'o', 'n'] =~= "transaction"@);
        let (a, b) = if start.day <= end.day {
            (start.day, end.day)
        } else {
            (end.day, start.day)
        };
        let mut d = a;
        assert(out.deep_view() =~= transaction_files(a as int, a - 1));
        while d <= b
            invariant
                a <= d <= b + 1,
                b < MAX_DAY,
                valid_day(a),
                valid_day(b),
                out.deep_view() == transaction_files(a as int, d - 1),
            decreases b + 1 - d,
        {
            let mut name = text("transaction");
            let ds = format_compact_date(d);
            push_str(&mut name, ds.as_str());
            push_str(&mut name, ".txt");
            let ghost before = out.deep_view();
            out.push(name);
            assert(out.deep_view() =~= before.push("transaction"@ + compact_date(d) + ".txt"@));
            d = d + 1;
        }
        out
    } else if str_is(e.as_str(), &vec!['c', 'u', 's', 't', 'o', 'm', 'e', 'r']) || e.as_str().is_empty() {
        assert(seq!['t', 'r', 'a', 'n', 's', 'a', 'c', 't', 'i', 'o', 'n'] =~= "transaction"@);
        assert(seq!['c', 'u', 's', 't', 'o', 'm', 'e', 'r'] =~= "customer"@);
        out.push(text("customer.txt"));
        assert(out.deep_view() =~= seq!["customer.txt"@]);
        out
    } else {
        assert(seq!['t', 'r', 'a', 'n', 's', 'a', 'c', 't', 'i', 'o', 'n'] =~= "transaction"@);
        assert(seq!['c', 'u', 's', 't', 'o', 'm', 'e', 'r'] =~= "customer"@);
        let mut name = copy_string(&e);
        push_str(&mut name, ".txt");
        out.push(name);
        assert(out.deep_view() =~= seq![e@ + ".txt"@]);
        out
    }
}

// ---------------------------------------------------------------------------
// requests
// ---------------------------------------------------------------------------

/// One input of a job: which data (`key`), of which entity, over which time.
#[derive(Debug)]
pub struct JobInput {
    pub key: String,
    pub entity: String,
    pub time_range: Option<TimeRange>,
}

/// The plain values of an input: key, entity, time range.
pub type JobInputView = (Seq<char>, Seq<char>, Option<TimeRangeView>);

impl View for JobInput {
    type V = JobInputView;

    open spec fn view(&self) -> JobInputView {
        (
            self.key@,
            self.entity@,
            match self.time_range {
                Some(t) => Some(t@),
                None => None,
            },
        )
    }
}

/// A job of an evaluator, with its inputs.
#[derive(Debug)]
pub struct Job {
    pub evaluator_id: u64,
    pub input: Vec<JobInput>,
}

/// The plain values of a job: evaluator, inputs.
pub type JobView = (u64, Seq<JobInputView>);

impl View for Job {
    type V = JobView;

    open spec fn view(&self) -> JobView {
        (self.evaluator_id, self.input@.map_values(|i: JobInput| i@))
    }
}

/// A request to ingest jobs; `jobs` is accepted beside `job`.
#[derive(Debug)]
pub struct IngestRequest {
    pub job: Vec<Job>,
    pub jobs: Vec<Job>,
}

pub open spec fn jobs_view(v: Seq<Job>) -> Seq<JobView> {
    v.map_values(|j: Job| j@)
}

/// All jobs of a request: those of `job`, then those of `jobs`.
pub open spec fn all_jobs(req: IngestRequest) -> Seq<JobView> {
    jobs_view(req.job@) + jobs_view(req.jobs@)
}

/// The answer to an ingestion.
#[derive(Debug)]
pub struct IngestResponse {
    pub job_ids: Vec<u64>,
    pub message: String,
}

impl JobInput {
    /// A copy with the same values.
    pub fn copy(&self) -> (r: JobInput)
        ensures
            r@ == self@,
    {
        JobInput {
            key: copy_string(&self.key),
            entity: copy_string(&self.entity),
            time_range: match &self.time_range {
                Some(t) => Some(t.copy()),
                None => None,
            },
        }
    }
}

impl Job {
    /// A copy with the same values.
    pub fn copy(&self) -> (r: Job)
        ensures
            r@ == self@,
    {
        let mut inputs: Vec<JobInput> = Vec::new();
        let mut i: usize = 0;
        while i < self.input.len()
            invariant
                i <= self.input@.len(),
                inputs@.map_values(|x: JobInput| x@) == self.input@.map_values(|x: JobInput| x@).take(i as int),
            decreases self.input.len() - i,
        {
            let c = self.input[i].copy();
            let ghost before = inputs@;
            inputs.push(c);
            assert(inputs@.map_values(|x: JobInput| x@) =~= before.map_values(|x: JobInput| x@).push(c@));
            assert(self.input@.map_values(|x: JobInput| x@)[i as int] == self.input@[i as int]@);
            assert(inputs@.map_values(|x: JobInput| x@) =~= self.input@.map_values(|x: JobInput| x@).take(
                i + 1,
            ));
            i = i + 1;
        }
        assert(self.input@.map_values(|x: JobInput| x@).take(self.input@.len() as int) =~= self.input@.map_values(
            |x: JobInput| x@,
        ));
        Job { evaluator_id: self.evaluator_id, input: inputs }
    }
}

fn copy_jobs_into(out: &mut Vec<Job>, v: &Vec<Job>)
    ensures
        jobs_view(final(out)@) == jobs_view(old(out)@) + jobs_view(v@),
{
    let ghost start = jobs_view(out@);
    let mut i: usize = 0;
    while i < v.len()
        invariant
            i <= v@.len(),
            jobs_view(out@) == start + jobs_view(v@).take(i as int),
        decreases v.len() - i,
    {
        let c = v[i].copy();
        let ghost before = out@;
        out.push(c);
        assert(jobs_view(out@) =~= jobs_view(before).push(c@));
        assert(jobs_view(v@)[i as int] == v@[i as int]@);
        assert(jobs_view(out@) =~= start + jobs_view(v@).take(i + 1));
        i = i + 1;
    }
    assert(jobs_view(v@).take(v@.len() as int) =~= jobs_view(v@));
}

/// All jobs of a request, `job` first, then `jobs`.
pub fn all_jobs_from_request(req: &IngestRequest) -> (r: Vec<Job>)
    ensures
        jobs_view(r@) == all_jobs(*req),
{
    let mut v: Vec<Job> = Vec::new();
    copy_jobs_into(&mut v, &req.job);
    copy_jobs_into(&mut v, &req.jobs);
    assert(jobs_view(v@) =~= all_jobs(*req));
    v
}

/// A request holding the given jobs.
pub fn build_ingest_request(jobs: Vec<Job>) -> (r: IngestRequest)
    ensures
        r.job@ == jobs@,
        r.jobs@.len() == 0,
{
    IngestRequest { job: jobs, jobs: Vec::new() }
}

/// A job of an evaluator with the given inputs.
pub fn build_job(evaluator_id: u64, inputs: Vec<JobInput>) -> (r: Job)
    ensures
        r.evaluator_id == evaluator_id,
        r.input@ == inputs@,
{
    Job { evaluator_id, input: inputs }
}

/// An input of the given key, entity and time range.
pub fn build_job_input(key: &str, entity: &str, time_range: Option<TimeRange>) -> (r: JobInput)
    ensures
        r.key@ == key@,
        r.entity@ == entity@,
        r.time_range == time_range,
{
    JobInput { key: key.to_owned(), entity: entity.to_owned(), time_range }
}

/// A `between` range.
pub fn build_time_range_between(start: &str, end: &str) -> (r: TimeRange)
    ensures
        r@ == ("between"@, Seq::<char>::empty(), start@, end@),
{
    TimeRange { range_type: text("between"), value: String::new(), start: start.to_owned(), end: end.to_owned() }
}

/// A `named` range.
pub fn build_time_range_named(value: &str) -> (r: TimeRange)
    ensures
        r@ == ("named"@, value@, Seq::<char>::empty(), Seq::<char>::empty()),
{
    TimeRange { range_type: text("named"), value: value.to_owned(), start: String::new(), end: String::new() }
}

/// Why an ingestion is refused.
#[derive(Debug, Clone, PartialEq, Eq)]
pub enum IngestError {
    /// The request is malformed; the message says how.
    InvalidArgument(String),
}

/// A request must hold at least one job.
pub fn validate_ingest(req: &IngestRequest) -> (r: Result<(), IngestError>)
    ensures
        r is Ok <==> all_jobs(*req).len() > 0,
        r matches Err(IngestError::InvalidArgument(m)) ==> m@ == "job array is empty"@,
{
    if req.job.len() == 0 && req.jobs.len() == 0 {
        Err(IngestError::InvalidArgument(text("job array is empty")))
    } else {
        Ok(())
    }
}

/// The answer for the ids of the stored jobs: `ingested {n} jobs`.
pub fn ingest_response(ids: Vec<u64>) -> (r: IngestResponse)
    ensures
        r.job_ids@ == ids@,
        r.message@ == "ingested "@ + crate::text::decimal(ids@.len()) + " jobs"@,
{
    let mut m = text("ingested ");
    crate::text::push_decimal(&mut m, ids.len() as u64);
    push_str(&mut m, " jobs");
    IngestResponse { job_ids: ids, message: m }
}

/// The range of an input.
pub open spec fn input_range(i: JobInputView, today: i32) -> (UtcTime, UtcTime) {
    resolve_spec(i.2, today)
}

/// The files of an input.
pub open spec fn input_files(i: JobInputView, today: i32) -> Seq<Seq<char>> {
    let r = input_range(i, today);
    files_spec(i.1, r.0, r.1)
}

/// Dates of an input that the file naming can step past: for the entity
/// `transaction`, whose files are named day by day, the last representable
/// day cannot be.
pub open spec fn input_dates_ok(i: JobInputView, today: i32) -> bool {
    let r = input_range(i, today);
    lowercase(trim(i.1)) == "transaction"@ ==> r.0.day < MAX_DAY && r.1.day < MAX_DAY
}

/// Whether an entity names transactions (trimmed, in lowercase).
fn is_transaction_entity(entity: &str) -> (r: bool)
    ensures
        r == (lowercase(trim(entity@)) == "transaction"@),
{
    let et = trimmed_str(entity);
    let e = to_lowercase(et.as_str());
    proof {
        reveal_strlit("transaction");
    }
    let r = str_is(e.as_str(), &vec!['t', 'r', 'a', 'n', 's', 'a', 'c', 't', 'i', 'o', 'n']);
    assert(seq!['t', 'r', 'a', 'n', 's', 'a', 'c', 't', 'i', 'o', 'n'] =~= "transaction"@);
    r
}

pub open spec fn jobs_dates_ok(jobs: Seq<JobView>, today: i32) -> bool {
    forall|j: int, k: int|
        0 <= j < jobs.len() && 0 <= k < jobs[j].1.len() ==> input_dates_ok(#[trigger] jobs[j].1[k], today)
}

fn input_range_files(inp: &JobInput, today: i32) -> (r: (UtcTime, UtcTime, Vec<String>))
    requires
        valid_day(today),
        today > MIN_DAY,
        input_dates_ok(inp@, today),
    ensures
        (r.0, r.1) == input_range(inp@, today),
        r.2.deep_view() == input_files(inp@, today),
{
    let tr = match &inp.time_range {
        Some(t) => Some(t),
        None => None,
    };
    let (s, e) = resolve_time_range(tr, today);
    let files = filenames_for_entity(inp.entity.as_str(), s, e);
    (s, e, files)
}

/// Whether every input's dates can be named (see [`input_dates_ok`]).
pub fn request_dates_ok(req: &IngestRequest, today: i32) -> (r: bool)
    requires
        valid_day(today),
        today > MIN_DAY,
    ensures
        r == jobs_dates_ok(all_jobs(*req), today),
{
    let all = all_jobs_from_request(req);
    let ghost jv = jobs_view(all@);
    let mut j: usize = 0;
    while j < all.len()
        invariant
            j <= all@.len(),
            jv == jobs_view(all@),
            jv == all_jobs(*req),
            valid_day(today),
            today > MIN_DAY,
            forall|a: int, k: int| 0 <= a < j && 0 <= k < jv[a].1.len() ==> input_dates_ok(#[trigger] jv[a].1[k], today),
        decreases all.len() - j,
    {
        let job = &all[j];
        assert(jv[j as int] == job@);
        let mut k: usize = 0;
        while k < job.input.len()
            invariant
                k <= job.input@.len(),
                j < jv.len(),
                jv == all_jobs(*req),
                jv[j as int] == job@,
                valid_day(today),
                today > MIN_DAY,
                forall|b: int| 0 <= b < k ==> input_dates_ok(#[trigger] jv[j as int].1[b], today),
            decreases job.input.len() - k,
        {
            let inp = &job.input[k];
            assert(jv[j as int].1[k as int] == inp@);
            let tr = match &inp.time_range {
                Some(t) => Some(t),
                None => None,
            };
            let (s, e) = resolve_time_range(tr, today);
            if !(s.day < MAX_DAY && e.day < MAX_DAY) && is_transaction_entity(inp.entity.as_str()) {
                assert(!input_dates_ok(jv[j as int].1[k as int], today));
                return false;
            }
            k = k + 1;
        }
        j = j + 1;
    }
    true
}

/// Where a worker finds an entity's files: `data/customer/` for customers,
/// else `data/{entity}/`, the entity in lowercase.
pub open spec fn submit_prefix(entity: Seq<char>) -> Seq<char> {
    let l = lowercase(entity);
    if l == "customer"@ {
        "data/customer/"@
    } else {
        "data/"@ + l + "/"@
    }
}

/// The job forwarded to the coordinator for one input of a job stored
/// under `id`: the input's files under the entity's directory, output to
/// `data/output`, the `benefit-evaluator` application, two reduce tasks.
pub open spec fn forward_view(evaluator_id: u64, id: u64, inp: JobInputView, today: i32) -> SubmitJobRequestView {
    SubmitJobRequestView {
        files: input_files(inp, today).map_values(|f: Seq<char>| submit_prefix(inp.1) + f),
        output_dir: "data/output"@,
        app: "benefit-evaluator"@,
        n_reduce: 2,
        key: inp.0,
        entity: inp.1,
        evaluator_id,
        ingestion_job_id: id,
    }
}

/// The stored id of the `j`-th job, or 0 when there is none.
pub open spec fn id_at(ids: Seq<u64>, j: int) -> u64 {
    if 0 <= j < ids.len() {
        ids[j]
    } else {
        0
    }
}

/// The jobs forwarded for some jobs, input by input.
pub open spec fn forwards(jobs: Seq<JobView>, ids: Seq<u64>, today: i32) -> Seq<SubmitJobRequestView>
    decreases jobs.len(),
{
    if jobs.len() == 0 {
        Seq::empty()
    } else {
        let j = jobs.len() - 1;
        forwards(jobs.drop_last(), ids, today) + jobs.last().1.map_values(
            |inp: JobInputView| forward_view(jobs.last().0, id_at(ids, j), inp, today),
        )
    }
}

fn submit_files(entity: &str, files: &Vec<String>) -> (r: Vec<String>)
    ensures
        r.deep_view() == files.deep_view().map_values(|f: Seq<char>| submit_prefix(entity@) + f),
{
    let lower = to_lowercase(entity);
    proof {
        reveal_strlit("customer");
        reveal_strlit("data/customer/");
        reveal_strlit("data/");
        reveal_strlit("/");
    }
    let is_customer = str_is(lower.as_str(), &vec!['c', 'u', 's', 't', 'o', 'm', 'e', 'r']);
    assert(seq!['c', 'u', 's', 't', 'o', 'm', 'e', 'r'] =~= "customer"@);
    let mut prefix = if is_customer {
        text("data/customer/")
    } else {
        let mut p = text("data/");
        push_str(&mut p, lower.as_str());
        push_char(&mut p, '/');
        p
    };
    assert(prefix@ == submit_prefix(entity@));
    let mut out: Vec<String> = Vec::new();
    let mut i: usize = 0;
    while i < files.len()
        invariant
            i <= files@.len(),
            prefix@ == submit_prefix(entity@),
            out.deep_view() == files.deep_view().take(i as int).map_values(
                |f: Seq<char>| submit_prefix(entity@) + f,
            ),
        decreases files.len() - i,
    {
        let mut f = copy_string(&prefix);
        push_str(&mut f, files[i].as_str());
        let ghost before = out.deep_view();
        let ghost fv = f@;
        out.push(f);
        assert(out.deep_view() =~= before.push(fv));
        assert(files.deep_view()[i as int] == files@[i as int]@);
        assert(out.deep_view() =~= files.deep_view().take(i + 1).map_values(
            |f: Seq<char>| submit_prefix(entity@) + f,
        ));
        i = i + 1;
    }
    assert(files.deep_view().take(files@.len() as int) =~= files.deep_view());
    out
}

fn push_job_forwards(out: &mut Vec<SubmitJobRequest>, job: &Job, id: u64, today: i32)
    requires
        valid_day(today),
        today > MIN_DAY,
        forall|k: int| 0 <= k < job@.1.len() ==> input_dates_ok(#[trigger] job@.1[k], today),
    ensures
        final(out)@.map_values(|x: SubmitJobRequest| x@) == old(out)@.map_values(|x: SubmitJobRequest| x@)
            + job@.1.map_values(|inp: JobInputView| forward_view(job.evaluator_id, id, inp, today)),
{
    let ghost base = out@.map_values(|x: SubmitJobRequest| x@);
    let ghost fv = |inp: JobInputView| forward_view(job.evaluator_id, id, inp, today);
    let mut k: usize = 0;
    while k < job.input.len()
        invariant
            k <= job.input@.len(),
            valid_day(today),
            today > MIN_DAY,
            forall|b: int| 0 <= b < job@.1.len() ==> input_dates_ok(#[trigger] job@.1[b], today),
            fv == (|inp: JobInputView| forward_view(job.evaluator_id, id, inp, today)),
            base == old(out)@.map_values(|x: SubmitJobRequest| x@),
            out@.map_values(|x: SubmitJobRequest| x@) == base + job@.1.take(k as int).map_values(fv),
        decreases job.input.len() - k,
    {
        let inp = &job.input[k];
        assert(job@.1[k as int] == inp@);
        let (_s, _e, names) = input_range_files(inp, today);
        let files = submit_files(inp.entity.as_str(), &names);
        proof {
            reveal_strlit("data/output");
            reveal_strlit("benefit-evaluator");
        }
        let req_k = SubmitJobRequest {
            files,
            output_dir: text("data/output"),
            app: text("benefit-evaluator"),
            n_reduce: 2,
            key: copy_string(&inp.key),
            entity: copy_string(&inp.entity),
            evaluator_id: job.evaluator_id,
            ingestion_job_id: id,
        };
        assert(req_k@ == fv(inp@));
        let ghost before = out@.map_values(|x: SubmitJobRequest| x@);
        out.push(req_k);
        assert(out@.map_values(|x: SubmitJobRequest| x@) =~= before.push(req_k@));
        assert(job@.1.take(k + 1).map_values(fv) =~= job@.1.take(k as int).map_values(fv).push(fv(inp@)));
        k = k + 1;
    }
    assert(job@.1.take(job@.1.len() as int) =~= job@.1);
}

/// The jobs forwarded to the coordinator after the request's jobs were
/// stored under `ids` (in order; 0 for a job without an id): one per input.
pub fn forward_requests(req: &IngestRequest, ids: &Vec<u64>, today: i32) -> (r: Vec<SubmitJobRequest>)
    requires
        valid_day(today),
        today > MIN_DAY,
        jobs_dates_ok(all_jobs(*req), today),
    ensures
        r@.map_values(|x: SubmitJobRequest| x@) == forwards(all_jobs(*req), ids@, today),
{
    let all = all_jobs_from_request(req);
    let ghost jv = jobs_view(all@);
    let mut out: Vec<SubmitJobRequest> = Vec::new();
    let mut j: usize = 0;
    assert(out@.map_values(|x: SubmitJobRequest| x@) =~= forwards(jv.take(0), ids@, today));
    while j < all.len()
        invariant
            j <= all@.len(),
            jv == jobs_view(all@),
            jv == all_jobs(*req),
            valid_day(today),
            today > MIN_DAY,
            jobs_dates_ok(jv, today),
            out@.map_values(|x: SubmitJobRequest| x@) == forwards(jv.take(j as int), ids@, today),
        decreases all.len() - j,
    {
        let job = &all[j];
        assert(jv[j as int] == job@);
        let id = if j < ids.len() {
            ids[j]
        } else {
            0
        };
        assert forall|k: int| 0 <= k < job@.1.len() implies input_dates_ok(#[trigger] job@.1[k], today) by {
            assert(jv[j as int].1[k] == job@.1[k]);
        }
        push_job_forwards(&mut out, job, id, today);
        assert(jv.take(j + 1).drop_last() =~= jv.take(j as int));
        assert(jv.take(j + 1).last() == job@);
        assert(id == id_at(ids@, j as int));
        j = j + 1;
    }
    assert(jv.take(all@.len() as int) =~= jv);
    out
}

/// The `job_detail` row of an input and the `job_file` rows under it.
#[derive(Debug)]
pub struct DetailPlan {
    pub entity: String,
    pub key: String,
    pub start: UtcTime,
    pub end: UtcTime,
    pub filenames: Vec<String>,
}

/// Entity, key, range and file names.
pub type DetailPlanView = (Seq<char>, Seq<char>, UtcTime, UtcTime, Seq<Seq<char>>);

impl View for DetailPlan {
    type V = DetailPlanView;

    open spec fn view(&self) -> DetailPlanView {
        (self.entity@, self.key@, self.start, self.end, self.filenames.deep_view())
    }
}

/// The `job` row of a job (status `PROCESSING`) and its details.
#[derive(Debug)]
pub struct JobPlan {
    pub evaluator_id: u64,
    pub details: Vec<DetailPlan>,
}

impl View for JobPlan {
    type V = (u64, Seq<DetailPlanView>);

    open spec fn view(&self) -> (u64, Seq<DetailPlanView>) {
        (self.evaluator_id, self.details@.map_values(|d: DetailPlan| d@))
    }
}

/// The rows stored for one input.
pub open spec fn detail_view(inp: JobInputView, today: i32) -> DetailPlanView {
    let r = input_range(inp, today);
    (inp.1, inp.0, r.0, r.1, input_files(inp, today))
}

/// The rows stored for one job.
pub open spec fn job_plan_view(job: JobView, today: i32) -> (u64, Seq<DetailPlanView>) {
    (job.0, job.1.map_values(|inp: JobInputView| detail_view(inp, today)))
}

fn job_plan(job: &Job, today: i32) -> (r: JobPlan)
    requires
        valid_day(today),
        today > MIN_DAY,
        forall|k: int| 0 <= k < job@.1.len() ==> input_dates_ok(#[trigger] job@.1[k], today),
    ensures
        r@ == job_plan_view(job@, today),
{
    let ghost dv = |inp: JobInputView| detail_view(inp, today);
    let mut details: Vec<DetailPlan> = Vec::new();
    let mut k: usize = 0;
    while k < job.input.len()
        invariant
            k <= job.input@.len(),
            valid_day(today),
            today > MIN_DAY,
            forall|b: int| 0 <= b < job@.1.len() ==> input_dates_ok(#[trigger] job@.1[b], today),
            dv == (|inp: JobInputView| detail_view(inp, today)),
            details@.map_values(|d: DetailPlan| d@) == job@.1.take(k as int).map_values(dv),
        decreases job.input.len() - k,
    {
        let inp = &job.input[k];
        assert(job@.1[k as int] == inp@);
        let (s, e, names) = input_range_files(inp, today);
        let d = DetailPlan {
            entity: copy_string(&inp.entity),
            key: copy_string(&inp.key),
            start: s,
            end: e,
            filenames: names,
        };
        assert(d@ == dv(inp@));
        let ghost before = details@.map_values(|d: DetailPlan| d@);
        details.push(d);
        assert(details@.map_values(|d: DetailPlan| d@) =~= before.push(d@));
        assert(job@.1.take(k + 1).map_values(dv) =~= job@.1.take(k as int).map_values(dv).push(dv(inp@)));
        k = k + 1;
    }
    assert(job@.1.take(job@.1.len() as int) =~= job@.1);
    JobPlan { evaluator_id: job.evaluator_id, details }
}

/// The rows an ingestion stores, job by job: one `job` row per job, one
/// `job_detail` row per input with its resolved range, and one `job_file`
/// row per file of the input.
pub fn ingest_plan(req: &IngestRequest, today: i32) -> (r: Vec<JobPlan>)
    requires
        valid_day(today),
        today > MIN_DAY,
        jobs_dates_ok(all_jobs(*req), today),
    ensures
        r@.map_values(|p: JobPlan| p@) == all_jobs(*req).map_values(
            |j: JobView| job_plan_view(j, today),
        ),
{
    let all = all_jobs_from_request(req);
    let ghost jv = jobs_view(all@);
    let ghost pv = |j: JobView| job_plan_view(j, today);
    let mut out: Vec<JobPlan> = Vec::new();
    let mut j: usize = 0;
    while j < all.len()
        invariant
            j <= all@.len(),
            jv == jobs_view(all@),
            jv == all_jobs(*req),
            valid_day(today),
            today > MIN_DAY,
            jobs_dates_ok(jv, today),
            pv == (|j: JobView| job_plan_view(j, today)),
            out@.map_values(|p: JobPlan| p@) == jv.take(j as int).map_values(pv),
        decreases all.len() - j,
    {
        let job = &all[j];
        assert(jv[j as int] == job@);
        assert forall|k: int| 0 <= k < job@.1.len() implies input_dates_ok(#[trigger] job@.1[k], today) by {
            assert(jv[j as int].1[k] == job@.1[k]);
        }
        let p = job_plan(job, today);
        let ghost before = out@.map_values(|p: JobPlan| p@);
        out.push(p);
        assert(out@.map_values(|p: JobPlan| p@) =~= before.push(p@));
        assert(jv.take(j + 1).map_values(pv) =~= jv.take(j as int).map_values(pv).push(pv(job@)));
        j = j + 1;
    }
    assert(jv.take(all@.len() as int) =~= jv);
    out
}


// ---------------------------------------------------------------------------
// laws
// ---------------------------------------------------------------------------

/// A resolved range is never reversed: its start is not after its end.
pub proof fn law_resolved_range_ordered(tr: Option<TimeRangeView>, today: i32)
    requires
        valid_day(today),
        today > MIN_DAY,
    ensures
        time_le(resolve_spec(tr, today).0, resolve_spec(tr, today).1),
{
    match tr {
        Some(r) => {
            if lowercase(trim(r.0)) == "between"@ {
                match (parse_result(r.2), parse_result(r.3)) {
                    (Some(a), Some(b)) => {
                        if !time_le(a, b) {
                            assert(time_le(b, a));
                        }
                    },
                    _ => {},
                }
            }
        },
        None => {},
    }
}

/// A range of days from `a` to `b` names one transaction file per day, in
/// order: the `i`-th is that of day `a + i`.
pub proof fn law_transaction_files_one_per_day(a: int, b: int)
    requires
        a <= b + 1,
    ensures
        transaction_files(a, b).len() == b - a + 1,
        forall|i: int|
            0 <= i <= b - a ==> #[trigger] transaction_files(a, b)[i] == "transaction"@ + compact_date((a + i) as i32)
                + ".txt"@,
    decreases b - a + 1,
{
    if a <= b {
        law_transaction_files_one_per_day(a, b - 1);
        let f = transaction_files(a, b);
        let g = transaction_files(a, b - 1);
        assert(f == g.push("transaction"@ + compact_date(b as i32) + ".txt"@));
        assert forall|i: int| 0 <= i <= b - a implies #[trigger] f[i] == "transaction"@ + compact_date((a + i) as i32)
            + ".txt"@ by {
            if i < b - a {
                assert(f[i] == g[i]);
            }
        }
    }
}

/// Law: the rows planned for a job follow its inputs: the job row carries
/// the job's evaluator, and there is one detail per input, in order, with
/// the input's entity and key, the range its time range resolves to (start
/// and end), and the files of the entity over that range.
pub proof fn law_plan_details_follow_inputs(job: JobView, today: i32)
    ensures
        ({
            let plan = job_plan_view(job, today);
            &&& plan.0 == job.0
            &&& plan.1.len() == job.1.len()
            &&& forall|k: int| 0 <= k < job.1.len() ==> {
                let d = #[trigger] plan.1[k];
                let inp = job.1[k];
                &&& d.0 == inp.1
                &&& d.1 == inp.0
                &&& d.2 == resolve_spec(inp.2, today).0
                &&& d.3 == resolve_spec(inp.2, today).1
                &&& d.4 == files_spec(inp.1, resolve_spec(inp.2, today).0, resolve_spec(inp.2, today).1)
            }
        }),
{
}

/// Every input of some jobs with its job's evaluator and stored id, in
/// order, job after job.
pub open spec fn flat_inputs(jobs: Seq<JobView>, ids: Seq<u64>) -> Seq<(u64, u64, JobInputView)>
    decreases jobs.len(),
{
    if jobs.len() == 0 {
        Seq::empty()
    } else {
        let j = jobs.len() - 1;
        flat_inputs(jobs.drop_last(), ids) + jobs.last().1.map_values(
            |inp: JobInputView| (jobs.last().0, id_at(ids, j), inp),
        )
    }
}

/// Law: one job is forwarded to the coordinator per input, in order, and
/// each carries its input's key and entity, its job's evaluator and stored
/// id, the `data/output` directory, the `benefit-evaluator` application,
/// two reduce tasks, and the input's files, each under the entity's
/// directory.
pub proof fn law_forwards_follow_inputs(jobs: Seq<JobView>, ids: Seq<u64>, today: i32)
    ensures
        ({
            let fs = forwards(jobs, ids, today);
            let flat = flat_inputs(jobs, ids);
            &&& fs.len() == flat.len()
            &&& forall|n: int| 0 <= n < flat.len() ==> {
                let f = #[trigger] fs[n];
                let (e, id, inp) = flat[n];
                let r = resolve_spec(inp.2, today);
                let files = files_spec(inp.1, r.0, r.1);
                &&& f.key == inp.0
                &&& f.entity == inp.1
                &&& f.evaluator_id == e
                &&& f.ingestion_job_id == id
                &&& f.output_dir == "data/output"@
                &&& f.app == "benefit-evaluator"@
                &&& f.n_reduce == 2
                &&& f.files.len() == files.len()
                &&& forall|i: int| 0 <= i < files.len() ==> #[trigger] f.files[i] == submit_prefix(inp.1) + files[i]
            }
        }),
    decreases jobs.len(),
{
    if jobs.len() > 0 {
        let init = jobs.drop_last();
        law_forwards_follow_inputs(init, ids, today);
        let j = jobs.len() - 1;
        let a = forwards(init, ids, today);
        let b = jobs.last().1.map_values(|inp: JobInputView| forward_view(jobs.last().0, id_at(ids, j), inp, today));
        let fa = flat_inputs(init, ids);
        let fb = jobs.last().1.map_values(|inp: JobInputView| (jobs.last().0, id_at(ids, j), inp));
        assert(forwards(jobs, ids, today) == a + b);
        assert(flat_inputs(jobs, ids) == fa + fb);
        assert forall|n: int| 0 <= n < fa.len() + fb.len() implies ({
            let f = #[trigger] (a + b)[n];
            let (e, id, inp) = (fa + fb)[n];
            let r = resolve_spec(inp.2, today);
            let files = files_spec(inp.1, r.0, r.1);
            &&& f.key == inp.0
            &&& f.entity == inp.1
            &&& f.evaluator_id == e
            &&& f.ingestion_job_id == id
            &&& f.output_dir == "data/output"@
            &&& f.app == "benefit-evaluator"@
            &&& f.n_reduce == 2
            &&& f.files.len() == files.len()
            &&& forall|i: int| 0 <= i < files.len() ==> #[trigger] f.files[i] == submit_prefix(inp.1) + files[i]
        }) by {
            if n < fa.len() {
                assert((a + b)[n] == a[n]);
                assert((fa + fb)[n] == fa[n]);
            } else {
                assert((a + b)[n] == b[n - a.len()]);
                assert((fa + fb)[n] == fb[n - fa.len()]);
            }
        }
    }
}

/// Law: a `between` range whose two ends parse stands for the span between
/// them, earlier end first, whichever way round they were given; and the
/// range resolved is never backwards.
pub proof fn law_between_resolves_to_its_ends(ty: Seq<char>, value: Seq<char>, start: Seq<char>, end: Seq<char>, today: i32)
    requires
        lowercase(trim(ty)) == "between"@,
        parse_result(start) is Some,
        parse_result(end) is Some,
    ensures
        ({
            let s = parse_result(start)->0;
            let e = parse_result(end)->0;
            let r = resolve_spec(Some((ty, value, start, end)), today);
            &&& time_le(s, e) ==> r == (s, e)
            &&& !time_le(s, e) ==> r == (e, s)
            &&& resolve_spec(Some((ty, value, end, start)), today) == r || s == e
        }),
{
    let s = parse_result(start)->0;
    let e = parse_result(end)->0;
    if !time_le(s, e) && !time_le(e, s) {
        assert(false);
    }
    if time_le(s, e) && time_le(e, s) {
        assert(s.day == e.day && s.secs == e.secs && s.nanos == e.nanos);
    }
}

/// Law: the jobs of a request are those of `job` followed by those of
/// `jobs`, each with its evaluator and inputs.
pub proof fn law_all_jobs_lists_every_job(req: IngestRequest)
    ensures
        all_jobs(req).len() == req.job@.len() + req.jobs@.len(),
        forall|i: int| 0 <= i < req.job@.len() ==> #[trigger] all_jobs(req)[i] == req.job@[i]@,
        forall|i: int| 0 <= i < req.jobs@.len() ==> #[trigger] all_jobs(req)[req.job@.len() + i] == req.jobs@[i]@,
{
}

} // verus!
