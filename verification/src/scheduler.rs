//! The scheduler: its cron expression and time zone, when it fires next,
//! and the ingestion requests it sends.

use vstd::prelude::*;
use std::str::FromStr;
use chrono::{Datelike, Timelike};
use crate::text::{
    chars_of, trim, trim_start, trim_end, trim_bounds, string_of, is_ws, is_whitespace, push_str, push_char,
};
use crate::time::{UtcTime, time_le};
use crate::ingestion::{
    IngestRequest, Job, JobInput, TimeRange, TimeRangeView, JobInputView, build_time_range_between,
    build_time_range_named,
};
use crate::json::{
    JsonValue, JsonView, JsonList, jview, list_view, get, as_str, get_member, value_as_str, opt_view,
};
use crate::models::{EvaluatorModel, RuleModel};
use crate::ingestion::{JobView, jobs_view};

pub use crate::client::{build_submit_job_request, default_submit_job_request};

verus! {

/// The number of whitespace-separated words (`split_whitespace().count()`).
pub open spec fn word_count(s: Seq<char>) -> nat
    decreases s.len(),
{
    if s.len() == 0 {
        0
    } else {
        let n = s.len() - 1;
        word_count(s.drop_last()) + if !is_ws(s[n]) && (n == 0 || is_ws(s[n - 1])) {
            1nat
        } else {
            0nat
        }
    }
}

/// The expression the cron parser gets: the trimmed text, with a seconds
/// field of `0` put in front of a five-field expression.
pub open spec fn normalized_cron(cron: Seq<char>) -> Seq<char> {
    let t = trim(cron);
    if word_count(t) == 5 {
        seq!['0', ' '] + t
    } else {
        t
    }
}

fn count_words(v: &Vec<char>, lo: usize, hi: usize) -> (r: usize)
    requires
        lo <= hi <= v.len(),
    ensures
        r == word_count(v@.subrange(lo as int, hi as int)),
{
    let mut n: usize = 0;
    let mut i = lo;
    assert(v@.subrange(lo as int, lo as int) =~= Seq::<char>::empty());
    while i < hi
        invariant
            lo <= i <= hi <= v.len(),
            n == word_count(v@.subrange(lo as int, i as int)),
            n <= i - lo,
        decreases hi - i,
    {
        let ghost s = v@.subrange(lo as int, i + 1);
        assert(s.drop_last() =~= v@.subrange(lo as int, i as int));
        assert(s[i - lo] == v@[i as int]);
        if i > lo {
            assert(s[i - lo - 1] == v@[i - 1]);
        }
        if !is_whitespace(v[i]) && (i == lo || is_whitespace(v[i - 1])) {
            n = n + 1;
        }
        i = i + 1;
    }
    n
}

proof fn lemma_trim_end_facts(s: Seq<char>)
    ensures
        trim_end(s).len() <= s.len(),
        trim_end(s) == s.take(trim_end(s).len() as int),
        trim_end(s).len() > 0 ==> !is_ws(trim_end(s).last()),
    decreases s.len(),
{
    if s.len() > 0 && is_ws(s.last()) {
        lemma_trim_end_facts(s.drop_last());
        let t = trim_end(s.drop_last());
        assert(s.drop_last().take(t.len() as int) =~= s.take(t.len() as int));
    } else {
        assert(s.take(s.len() as int) =~= s);
    }
}

proof fn lemma_trim_start_first(s: Seq<char>)
    ensures
        trim_start(s).len() > 0 ==> !is_ws(trim_start(s)[0]),
    decreases s.len(),
{
    if s.len() > 0 && is_ws(s[0]) {
        lemma_trim_start_first(s.drop_first());
    }
}

/// Trimming twice is trimming once; a trimmed text that is not empty starts
/// and ends with a character that is not whitespace.
proof fn lemma_trim_idempotent(s: Seq<char>)
    ensures
        trim(trim(s)) == trim(s),
        trim(s).len() > 0 ==> !is_ws(trim(s)[0]) && !is_ws(trim(s).last()),
{
    let u = trim_start(s);
    lemma_trim_start_first(s);
    lemma_trim_end_facts(u);
    let v = trim_end(u);
    if v.len() > 0 {
        assert(v[0] == u[0]);
        assert(trim_start(v) == v);
        assert(trim_end(v) == v);
    } else {
        assert(trim_start(v) == v);
        assert(trim_end(v) == v);
    }
}

/// Words of a text after one that ends in whitespace add up.
proof fn lemma_word_count_concat(p: Seq<char>, b: Seq<char>)
    requires
        p.len() > 0 ==> is_ws(p.last()),
    ensures
        word_count(p + b) == word_count(p) + word_count(b),
    decreases b.len(),
{
    if b.len() == 0 {
        assert(p + b =~= p);
    } else {
        let s = p + b;
        assert(s.drop_last() =~= p + b.drop_last());
        lemma_word_count_concat(p, b.drop_last());
        let n = s.len() - 1;
        let m = b.len() - 1;
        assert(s[n] == b[m]);
        if m > 0 {
            assert(s[n - 1] == b[m - 1]);
        } else if p.len() > 0 {
            assert(s[n - 1] == p.last());
        }
    }
}

proof fn lemma_word_count_empty(s: Seq<char>)
    ensures
        s.len() == 0 ==> word_count(s) == 0,
{
}

/// Normalizing an expression that is already normalized changes nothing:
/// a five-field expression gains its seconds field once, and a trimmed
/// expression of any other length stays as it is.
pub proof fn law_normalize_cron_idempotent(cron: Seq<char>)
    ensures
        normalized_cron(normalized_cron(cron)) == normalized_cron(cron),
{
    let t = trim(cron);
    lemma_trim_idempotent(cron);
    if word_count(t) == 5 {
        let z = seq!['0', ' '];
        let n = z + t;
        lemma_word_count_empty(t);
        assert(t.len() > 0);
        assert(!is_ws(t[0]) && !is_ws(t.last()));
        assert(n[0] == '0');
        assert(!is_ws('0')) by {
            assert(('0' as u32) == 48);
        }
        assert(trim_start(n) == n);
        assert(n.last() == t.last());
        assert(trim_end(n) == n);
        assert(trim(n) == n);
        assert(is_ws(' ')) by {
            assert((' ' as u32) == 32);
        }
        lemma_word_count_concat(z, t);
        let o = seq!['0'];
        assert(o.len() == 1 && o[0] == '0');
        assert(o.drop_last() =~= Seq::<char>::empty());
        assert(word_count(o.drop_last()) == 0);
        assert(word_count(o) == 1);
        assert(z.drop_last() =~= o);
        assert(z.len() == 2 && z[1] == ' ');
        assert(word_count(z) == 1);
        assert(word_count(n) == 6);
    }
}

/// Normalizes a cron expression to the six-field form.
pub fn normalize_cron(cron: &str) -> (r: String)
    ensures
        r@ == normalized_cron(cron@),
{
    let v = chars_of(cron);
    assert(v@.subrange(0, v@.len() as int) =~= cron@);
    let (lo, hi) = trim_bounds(&v, 0, v.len());
    let t = string_of(&v, lo, hi);
    if count_words(&v, lo, hi) == 5 {
        let mut r = String::new();
        push_char(&mut r, '0');
        push_char(&mut r, ' ');
        push_str(&mut r, t.as_str());
        assert(r@ =~= seq!['0', ' '] + t@);
        r
    } else {
        t
    }
}

/// Whether the `cron` crate accepts an expression.
pub uninterp spec fn cron_accepts(text: Seq<char>) -> bool;

/// Whether `chrono-tz` knows a time zone name.
pub uninterp spec fn tz_known(name: Seq<char>) -> bool;

/// The next fire time of a cron expression in a time zone after an instant,
/// as the `cron` crate computes it.
pub uninterp spec fn cron_next(text: Seq<char>, tz: Seq<char>, from: UtcTime) -> Option<UtcTime>;

/// The seconds from `from` to `to` within their days as `chrono` counts
/// them: a leap second that is passed over counts as one more second.
pub open spec fn leap_secs_diff(from: UtcTime, to: UtcTime) -> int {
    let d = to.secs - from.secs;
    if to.secs > from.secs && from.nanos >= 1_000_000_000 {
        d + 1
    } else if to.secs < from.secs && to.nanos >= 1_000_000_000 {
        d - 1
    } else {
        d
    }
}

/// The nanoseconds from one instant to another, as `chrono` subtracts them.
pub open spec fn nanos_diff(from: UtcTime, to: UtcTime) -> int {
    ((to.day - from.day) * 86400 + leap_secs_diff(from, to)) * 1_000_000_000 + (to.nanos - from.nanos)
}

/// The whole milliseconds from one instant to another, truncated toward
/// zero.
pub open spec fn millis_diff(from: UtcTime, to: UtcTime) -> int {
    let n = nanos_diff(from, to);
    if n >= 0 {
        n / 1_000_000
    } else {
        -((-n) / 1_000_000)
    }
}

/// `cron::Schedule::from_str` succeeds.
#[verifier::external_body]
fn cron_parses(text: &str) -> (r: bool)
    ensures
        r == cron_accepts(text@),
{
    cron::Schedule::from_str(text).is_ok()
}

/// `chrono_tz::Tz::from_str` succeeds (it does for `UTC`).
#[verifier::external_body]
fn tz_parses(name: &str) -> (r: bool)
    ensures
        r == tz_known(name@),
        name@ == "UTC"@ ==> r,
{
    chrono_tz::Tz::from_str(name).is_ok()
}

/// `cron::Schedule::after(from).next()`, the schedule parsed from `text`
/// and `from` taken to the time zone `tz`, the answer back in UTC. The
/// `cron` crate searches from one second after `from` for the next matching
/// local time, to the whole second. In `UTC` local time is the instant, so
/// the answer lies after `from`. In a zone whose clock is set back a local
/// time can occur twice and the earlier instant can precede `from`, so no
/// order is claimed there. `chrono` cannot add that second to an instant in
/// its last representable second (it panics).
#[verifier::external_body]
fn cron_next_after(text: &str, tz: &str, from: UtcTime) -> (r: Option<UtcTime>)
    requires
        cron_accepts(text@),
        tz_known(tz@),
        from.wf(),
        from.before_last_second(),
    ensures
        r == cron_next(text@, tz@, from),
        r matches Some(t) ==> t.wf(),
        tz@ == "UTC"@ ==> (r matches Some(t) ==> !time_le(t, from)),
{
    let naive = chrono::NaiveDateTime::new(
        chrono::NaiveDate::from_num_days_from_ce_opt(from.day)?,
        chrono::NaiveTime::from_num_seconds_from_midnight_opt(from.secs, from.nanos)?,
    );
    let zone = chrono_tz::Tz::from_str(tz).ok()?;
    let schedule = cron::Schedule::from_str(text).ok()?;
    let next = schedule.after(&naive.and_utc().with_timezone(&zone)).next()?.naive_utc();
    Some(UtcTime { day: next.num_days_from_ce(), secs: next.num_seconds_from_midnight(), nanos: next.nanosecond() })
}

/// `(to - from).num_milliseconds()` of `chrono`: the whole milliseconds of
/// the difference, truncated toward zero.
#[verifier::external_body]
fn millis_between(from: UtcTime, to: UtcTime) -> (r: i64)
    requires
        from.wf(),
        to.wf(),
    ensures
        r == millis_diff(from, to),
{
    let a = chrono::NaiveDateTime::new(
        chrono::NaiveDate::from_num_days_from_ce_opt(from.day).unwrap_or_default(),
        chrono::NaiveTime::from_num_seconds_from_midnight_opt(from.secs, from.nanos).unwrap_or_default(),
    );
    let b = chrono::NaiveDateTime::new(
        chrono::NaiveDate::from_num_days_from_ce_opt(to.day).unwrap_or_default(),
        chrono::NaiveTime::from_num_seconds_from_midnight_opt(to.secs, to.nanos).unwrap_or_default(),
    );
    (b - a).num_milliseconds()
}

/// The scheduler's settings: whether it runs, its cron expression (five or
/// six fields) and its time zone name.
#[derive(Debug, Clone)]
pub struct SchedulerConfig {
    pub enabled: bool,
    pub cron: String,
    pub timezone: String,
}

/// A validated cron expression, in its six-field form.
#[derive(Debug, Clone)]
pub struct CronSchedule {
    pub expression: String,
}

/// Why a cron expression is refused.
pub open spec fn cron_error(cron: Seq<char>) -> Seq<char> {
    "invalid cron expression: '"@ + cron + "' (normalized: '"@ + normalized_cron(cron) + "')"@
}

/// Parses a cron expression (normalized to six fields first).
pub fn parse_schedule(cron: &str) -> (r: Result<CronSchedule, String>)
    ensures
        match r {
            Ok(s) => cron_accepts(normalized_cron(cron@)) && s.expression@ == normalized_cron(cron@),
            Err(m) => !cron_accepts(normalized_cron(cron@)) && m@ == cron_error(cron@),
        },
{
    let normalized = normalize_cron(cron);
    if cron_parses(normalized.as_str()) {
        Ok(CronSchedule { expression: normalized })
    } else {
        let mut m = "invalid cron expression: '".to_owned();
        push_str(&mut m, cron);
        push_str(&mut m, "' (normalized: '");
        push_str(&mut m, normalized.as_str());
        push_str(&mut m, "')");
        Err(m)
    }
}

/// The time zone used: the configured one when known, else `UTC`.
pub open spec fn effective_tz(name: Seq<char>) -> Seq<char> {
    if tz_known(name) {
        name
    } else {
        "UTC"@
    }
}

/// Resolves a time zone name, falling back to `UTC`.
pub fn parse_timezone(name: &str) -> (r: String)
    ensures
        r@ == effective_tz(name@),
{
    if tz_parses(name) {
        name.to_owned()
    } else {
        "UTC".to_owned()
    }
}

/// A scheduler that fires on its cron schedule.
#[derive(Debug, Clone)]
pub struct Scheduler {
    config: SchedulerConfig,
}

impl Scheduler {
    pub closed spec fn spec_config(&self) -> SchedulerConfig {
        self.config
    }

    /// A scheduler with the given settings.
    pub fn new(config: SchedulerConfig) -> (s: Self)
        ensures
            s.spec_config() == config,
    {
        Scheduler { config }
    }

    /// The settings.
    pub fn config(&self) -> (c: &SchedulerConfig)
        ensures
            *c == self.spec_config(),
    {
        &self.config
    }

    /// Whether the scheduler runs at all.
    pub fn is_enabled(&self) -> (b: bool)
        ensures
            b == self.spec_config().enabled,
    {
        self.config.enabled
    }

    /// The schedule of the configured expression.
    pub fn schedule(&self) -> (r: Result<CronSchedule, String>)
        ensures
            match r {
                Ok(s) => cron_accepts(normalized_cron(self.spec_config().cron@)) && s.expression@
                    == normalized_cron(self.spec_config().cron@),
                Err(m) => !cron_accepts(normalized_cron(self.spec_config().cron@)) && m@ == cron_error(
                    self.spec_config().cron@,
                ),
            },
    {
        parse_schedule(self.config.cron.as_str())
    }

    /// The time zone used.
    pub fn timezone(&self) -> (r: String)
        ensures
            r@ == effective_tz(self.spec_config().timezone@),
    {
        parse_timezone(self.config.timezone.as_str())
    }

    /// When the scheduler fires next after `from`: never when disabled or
    /// when the expression is invalid.
    pub open spec fn spec_next_run_from(&self, from: UtcTime) -> Option<UtcTime> {
        let c = self.spec_config();
        if !c.enabled || !cron_accepts(normalized_cron(c.cron@)) {
            None
        } else {
            cron_next(normalized_cron(c.cron@), effective_tz(c.timezone@), from)
        }
    }

    /// The next fire time after `from` (in `UTC`, strictly after it).
    pub fn next_run_from(&self, from: UtcTime) -> (r: Option<UtcTime>)
        requires
            from.wf(),
            from.before_last_second(),
        ensures
            r == self.spec_next_run_from(from),
            r matches Some(t) ==> t.wf(),
            effective_tz(self.spec_config().timezone@) == "UTC"@ ==> (r matches Some(t) ==> !time_le(t, from)),
    {
        if !self.config.enabled {
            return None;
        }
        let tz = self.timezone();
        proof {
            reveal_strlit("UTC");
        }
        if !tz_parses(tz.as_str()) {
            // a known name, or `UTC`, always parses
            return None;
        }
        match self.schedule() {
            Ok(s) => cron_next_after(s.expression.as_str(), tz.as_str(), from),
            Err(_) => None,
        }
    }

    /// How long from `from` until the next fire time, in milliseconds (0
    /// when that time is not later by a whole millisecond).
    pub fn duration_until_next_from(&self, from: UtcTime) -> (r: Option<u64>)
        requires
            from.wf(),
            from.before_last_second(),
        ensures
            match self.spec_next_run_from(from) {
                Some(t) => r == Some(if millis_diff(from, t) < 0 {
                    0u64
                } else {
                    millis_diff(from, t) as u64
                }),
                None => r is None,
            },
    {
        match self.next_run_from(from) {
            Some(t) => {
                let ms = millis_between(from, t);
                Some(if ms < 0 {
                    0
                } else {
                    ms as u64
                })
            },
            None => None,
        }
    }
}

// ---------------------------------------------------------------------------
// ingestion requests
// ---------------------------------------------------------------------------

/// A text member of a JSON value, or a default.
pub open spec fn str_or(v: Option<JsonView>, d: Seq<char>) -> Seq<char> {
    match as_str(v) {
        Some(s) => s,
        None => d,
    }
}

/// The objects a rule's `input` lists: an array's elements, the elements
/// of its `inputs` array, or the value itself when it has a `key` or an
/// `entity`; nothing otherwise.
pub open spec fn input_values(input: JsonView) -> Seq<JsonView> {
    match input {
        JsonView::Array(items) => items,
        _ => match get(input, "inputs"@) {
            Some(JsonView::Array(items)) => items,
            _ => if get(input, "key"@) is Some || get(input, "entity"@) is Some {
                seq![input]
            } else {
                Seq::empty()
            },
        },
    }
}

/// The `today` range.
pub open spec fn today_view() -> TimeRangeView {
    ("named"@, "today"@, Seq::empty(), Seq::empty())
}

/// The input described by one object: its `key` (else `default_key`), its
/// `entity` (else `transaction`), and its `time_range` (or `timeRange`):
/// `between` its `start` and `end`, else `named` by its `value` (else
/// `today`); `today` when it has none.
pub open spec fn job_input_of(v: JsonView) -> JobInputView {
    let key = str_or(get(v, "key"@), "default_key"@);
    let entity = str_or(get(v, "entity"@), "transaction"@);
    let tr = match get(v, "time_range"@) {
        Some(x) => Some(x),
        None => get(v, "timeRange"@),
    };
    let range = match tr {
        Some(t) => if str_or(get(t, "type"@), "named"@) == "between"@ {
            ("between"@, Seq::<char>::empty(), str_or(get(t, "start"@), Seq::empty()), str_or(get(t, "end"@), Seq::empty()))
        } else {
            ("named"@, str_or(get(t, "value"@), "today"@), Seq::<char>::empty(), Seq::<char>::empty())
        },
        None => today_view(),
    };
    (key, entity, Some(range))
}

pub open spec fn inputs_view(v: Seq<JobInput>) -> Seq<JobInputView> {
    v.map_values(|i: JobInput| i@)
}

fn member_str_or(v: &JsonValue, key: &Vec<char>, default: &str) -> (r: String)
    ensures
        r@ == str_or(get(jview(*v), key@), default@),
{
    match value_as_str(get_member(v, key)) {
        Some(s) => s,
        None => default.to_owned(),
    }
}

fn chars(s: &str) -> (r: Vec<char>)
    ensures
        r@ == s@,
{
    chars_of(s)
}

/// The input one object describes.
fn job_input_from(v: &JsonValue) -> (r: JobInput)
    ensures
        r@ == job_input_of(jview(*v)),
{
    let key = member_str_or(v, &chars("key"), "default_key");
    let entity = member_str_or(v, &chars("entity"), "transaction");
    let tr = match get_member(v, &chars("time_range")) {
        Some(x) => Some(x),
        None => get_member(v, &chars("timeRange")),
    };
    let time_range = match tr {
        Some(t) => {
            let ttype = member_str_or(t, &chars("type"), "named");
            if crate::text::str_is(ttype.as_str(), &chars("between")) {
                let start = member_str_or(t, &chars("start"), "");
                let end = member_str_or(t, &chars("end"), "");
                build_time_range_between(start.as_str(), end.as_str())
            } else {
                let value = member_str_or(t, &chars("value"), "today");
                build_time_range_named(value.as_str())
            }
        },
        None => build_time_range_named("today"),
    };
    proof {
        reveal_strlit("");
    }
    JobInput { key, entity, time_range: Some(time_range) }
}

fn push_list_inputs(l: &JsonList, out: &mut Vec<JobInput>)
    ensures
        inputs_view(final(out)@) == inputs_view(old(out)@) + list_view(*l).map_values(
            |v: JsonView| job_input_of(v),
        ),
    decreases l,
{
    match l {
        JsonList::Nil => {
            assert(inputs_view(out@) =~= inputs_view(old(out)@) + list_view(*l).map_values(
                |v: JsonView| job_input_of(v),
            ));
        },
        JsonList::Cons(v, rest) => {
            let ji = job_input_from(&**v);
            let ghost before = inputs_view(out@);
            out.push(ji);
            assert(inputs_view(out@) =~= before.push(ji@));
            push_list_inputs(&**rest, out);
            assert(list_view(*l) == seq![jview(**v)] + list_view(**rest));
            assert(inputs_view(out@) =~= inputs_view(old(out)@) + list_view(*l).map_values(
                |v: JsonView| job_input_of(v),
            ));
        },
    }
}

/// The inputs a rule's `input` value describes (see [`input_values`] and
/// [`job_input_of`]).
pub fn rule_input_to_job_inputs(input: &JsonValue) -> (r: Vec<JobInput>)
    ensures
        inputs_view(r@) == input_values(jview(*input)).map_values(|v: JsonView| job_input_of(v)),
{
    let mut out: Vec<JobInput> = Vec::new();
    match input {
        JsonValue::Array(l) => {
            push_list_inputs(l, &mut out);
            assert(inputs_view(out@) =~= input_values(jview(*input)).map_values(|v: JsonView| job_input_of(v)));
            return out;
        },
        _ => {},
    }
    let inputs_key = chars("inputs");
    match get_member(input, &inputs_key) {
        Some(JsonValue::Array(l)) => {
            push_list_inputs(l, &mut out);
            assert(inputs_view(out@) =~= input_values(jview(*input)).map_values(|v: JsonView| job_input_of(v)));
            return out;
        },
        _ => {},
    }
    if get_member(input, &chars("key")).is_some() || get_member(input, &chars("entity")).is_some() {
        let ji = job_input_from(input);
        out.push(ji);
    }
    assert(inputs_view(out@) =~= input_values(jview(*input)).map_values(|v: JsonView| job_input_of(v)));
    out
}

/// The inputs of one rule: those its `input` describes, or a fallback
/// `rule_{id}_fallback` transaction input for today when there are none.
pub open spec fn rule_inputs(rule_id: i64, input: JsonView) -> Seq<JobInputView> {
    let jis = input_values(input).map_values(|v: JsonView| job_input_of(v));
    if jis.len() == 0 {
        seq![("rule_"@ + crate::text::decimal_i64(rule_id) + "_fallback"@, "transaction"@, Some(today_view()))]
    } else {
        jis
    }
}

/// The inputs of an evaluator's rules, rule after rule.
pub open spec fn rules_inputs(rules: Seq<(i64, JsonView)>) -> Seq<JobInputView>
    decreases rules.len(),
{
    if rules.len() == 0 {
        Seq::empty()
    } else {
        rules_inputs(rules.drop_last()) + rule_inputs(rules.last().0, rules.last().1)
    }
}

/// The job of an evaluator: its id, with its rules' inputs, or one
/// `default` transaction input for today when it has none.
pub open spec fn evaluator_job(id: i64, rules: Seq<(i64, JsonView)>) -> JobView {
    let inputs = rules_inputs(rules);
    (
        id as u64,
        if inputs.len() == 0 {
            seq![("default"@, "transaction"@, Some(today_view()))]
        } else {
            inputs
        },
    )
}

/// The rules of a list as (id, input) values.
pub open spec fn rules_view(rules: Seq<RuleModel>) -> Seq<(i64, JsonView)> {
    rules.map_values(|r: RuleModel| (r.id, jview(r.input)))
}

fn today_input(key: String) -> (r: JobInput)
    ensures
        r@ == (key@, "transaction"@, Some(today_view())),
{
    JobInput { key, entity: "transaction".to_owned(), time_range: Some(build_time_range_named("today")) }
}

fn append_inputs(out: &mut Vec<JobInput>, more: Vec<JobInput>)
    ensures
        inputs_view(final(out)@) == inputs_view(old(out)@) + inputs_view(more@),
{
    let mut m = more;
    let ghost a = inputs_view(out@);
    let ghost b = inputs_view(m@);
    out.append(&mut m);
    assert(inputs_view(out@) =~= a + b);
}

/// The job of one evaluator and its rules.
fn evaluator_job_of(eval: &EvaluatorModel, rules: &Vec<RuleModel>) -> (r: Job)
    ensures
        r@ == evaluator_job(eval.id, rules_view(rules@)),
{
    let ghost rv = rules_view(rules@);
    let mut inputs: Vec<JobInput> = Vec::new();
    let mut i: usize = 0;
    while i < rules.len()
        invariant
            i <= rules@.len(),
            rv == rules_view(rules@),
            inputs_view(inputs@) == rules_inputs(rv.take(i as int)),
        decreases rules.len() - i,
    {
        let rule = &rules[i];
        assert(rv.take(i + 1).drop_last() =~= rv.take(i as int));
        assert(rv.take(i + 1).last() == (rule.id, jview(rule.input)));
        let jis = rule_input_to_job_inputs(&rule.input);
        if jis.len() == 0 {
            let mut key = "rule_".to_owned();
            crate::text::push_decimal_i64(&mut key, rule.id);
            push_str(&mut key, "_fallback");
            let mut one: Vec<JobInput> = Vec::new();
            one.push(today_input(key));
            assert(inputs_view(one@) =~= rule_inputs(rule.id, jview(rule.input)));
            append_inputs(&mut inputs, one);
        } else {
            append_inputs(&mut inputs, jis);
        }
        i = i + 1;
    }
    assert(rv.take(rules@.len() as int) =~= rv);
    if inputs.len() == 0 {
        inputs.push(today_input("default".to_owned()));
        assert(inputs_view(inputs@) =~= seq![("default"@, "transaction"@, Some(today_view()))]);
    }
    Job { evaluator_id: eval.id as u64, input: inputs }
}

/// The request for the active evaluators and their active rules: one job
/// per evaluator, in order.
pub fn build_request_from_evaluators(eval_rules: Vec<(EvaluatorModel, Vec<RuleModel>)>) -> (r: IngestRequest)
    ensures
        jobs_view(r.job@) == eval_rules@.map_values(
            |p: (EvaluatorModel, Vec<RuleModel>)| evaluator_job(p.0.id, rules_view(p.1@)),
        ),
        r.jobs@.len() == 0,
{
    let ghost ev = eval_rules@.map_values(
        |p: (EvaluatorModel, Vec<RuleModel>)| evaluator_job(p.0.id, rules_view(p.1@)),
    );
    let mut jobs: Vec<Job> = Vec::new();
    let mut i: usize = 0;
    while i < eval_rules.len()
        invariant
            i <= eval_rules@.len(),
            ev == eval_rules@.map_values(
                |p: (EvaluatorModel, Vec<RuleModel>)| evaluator_job(p.0.id, rules_view(p.1@)),
            ),
            jobs_view(jobs@) == ev.take(i as int),
        decreases eval_rules.len() - i,
    {
        let (eval, rules) = &eval_rules[i];
        let job = evaluator_job_of(eval, rules);
        let ghost before = jobs_view(jobs@);
        jobs.push(job);
        assert(jobs_view(jobs@) =~= before.push(job@));
        assert(ev.take(i + 1) =~= ev.take(i as int).push(ev[i as int]));
        i = i + 1;
    }
    assert(ev.take(eval_rules@.len() as int) =~= ev);
    IngestRequest { job: jobs, jobs: Vec::new() }
}

fn demo_job(evaluator_id: u64, key: &str, entity: &str, between: bool) -> (r: Job)
    ensures
        r@ == (evaluator_id, seq![(key@, entity@, Some(if between {
            ("between"@, Seq::<char>::empty(), "2026-09-01T00:00:00"@, "2026-09-07T23:59:59"@)
        } else {
            today_view()
        }))]),
{
    let tr = if between {
        build_time_range_between("2026-09-01T00:00:00", "2026-09-07T23:59:59")
    } else {
        build_time_range_named("today")
    };
    let mut input: Vec<JobInput> = Vec::new();
    input.push(JobInput { key: key.to_owned(), entity: entity.to_owned(), time_range: Some(tr) });
    let ghost iv = input@.map_values(|i: JobInput| i@);
    let j = Job { evaluator_id, input };
    assert(j@.1 =~= iv);
    j
}

/// The demo jobs.
pub open spec fn demo_jobs() -> Seq<JobView> {
    seq![
        (1u64, seq![("data_transaction_widow"@, "transaction"@, Some(("between"@, Seq::<char>::empty(), "2026-09-01T00:00:00"@, "2026-09-07T23:59:59"@)))]),
        (12u64, seq![("data_transaction_today"@, "transaction"@, Some(today_view()))]),
        (13u64, seq![("data_customer_widow"@, "customer"@, Some(("between"@, Seq::<char>::empty(), "2026-09-01T00:00:00"@, "2026-09-07T23:59:59"@)))]),
        (14u64, seq![("data_customer_today"@, "customer"@, Some(today_view()))]),
    ]
}

/// The demo request: a week of transactions for evaluator 1, today's
/// transactions for 12, a week of customers for 13 and today's customers
/// for 14.
pub fn build_demo_request() -> (r: IngestRequest)
    ensures
        r.jobs@.len() == 0,
        jobs_view(r.job@) == demo_jobs(),
{
    let mut jobs: Vec<Job> = Vec::new();
    jobs.push(demo_job(1, "data_transaction_widow", "transaction", true));
    jobs.push(demo_job(12, "data_transaction_today", "transaction", false));
    jobs.push(demo_job(13, "data_customer_widow", "customer", true));
    jobs.push(demo_job(14, "data_customer_today", "customer", false));
    let r = IngestRequest { job: jobs, jobs: Vec::new() };
    assert(jobs_view(r.job@) =~= demo_jobs());
    r
}

/// The request a tick sends: the one built from the database when it has
/// jobs, else the demo request.
pub fn choose_request(from_db: Option<IngestRequest>) -> (r: IngestRequest)
    ensures
        match from_db {
            Some(d) => if d.job@.len() > 0 {
                r == d
            } else {
                jobs_view(r.job@) == demo_jobs()
            },
            None => jobs_view(r.job@) == demo_jobs(),
        },
{
    match from_db {
        Some(d) => if d.job.len() > 0 {
            d
        } else {
            build_demo_request()
        },
        None => build_demo_request(),
    }
}

/// The ingestion service's URL for its address (`host:port`).
pub fn ingestion_endpoint(addr: &str) -> (r: String)
    ensures
        r@ == "http://"@ + addr@,
{
    let mut r = "http://".to_owned();
    push_str(&mut r, addr);
    r
}

/// Law: an input object is read member by member: its `key` and `entity`
/// texts become the input's key and entity (`default_key` and
/// `transaction` when missing); a `time_range` of type `between` becomes a
/// `between` range from its `start` text to its `end` text, and one of
/// another type a range named by its `value` text; without a time range the
/// input is for today.
pub proof fn law_input_object_read_member_by_member(v: JsonView)
    ensures
        ({
            let ji = job_input_of(v);
            let t = get(v, "time_range"@)->0;
            let r = ji.2->0;
            &&& as_str(get(v, "key"@)) is Some ==> Some(ji.0) == as_str(get(v, "key"@))
            &&& get(v, "key"@) is None ==> ji.0 == "default_key"@
            &&& as_str(get(v, "entity"@)) is Some ==> Some(ji.1) == as_str(get(v, "entity"@))
            &&& get(v, "entity"@) is None ==> ji.1 == "transaction"@
            &&& ji.2 is Some
            &&& (get(v, "time_range"@) is Some && as_str(get(t, "type"@)) == Some("between"@)) ==> {
                &&& r.0 == "between"@
                &&& as_str(get(t, "start"@)) is Some ==> Some(r.2) == as_str(get(t, "start"@))
                &&& as_str(get(t, "end"@)) is Some ==> Some(r.3) == as_str(get(t, "end"@))
            }
            &&& (get(v, "time_range"@) is Some && as_str(get(t, "type"@)) is Some && as_str(get(t, "type"@))
                != Some("between"@) && as_str(get(t, "value"@)) is Some) ==> {
                &&& r.0 == "named"@
                &&& Some(r.1) == as_str(get(t, "value"@))
            }
            &&& (get(v, "time_range"@) is None && get(v, "timeRange"@) is None) ==> ji.2 == Some(
                ("named"@, "today"@, Seq::<char>::empty(), Seq::<char>::empty()),
            )
        }),
{
}

/// Law: an evaluator whose only rule's input is one object with a `key`
/// or an `entity` gets a job with that object's input alone; an evaluator
/// without rules gets one `default` transaction input for today.
pub proof fn law_evaluator_job_of_one_object(id: i64, rule_id: i64, v: JsonView)
    requires
        v is Object,
        !(get(v, "inputs"@) matches Some(JsonView::Array(_))),
        get(v, "key"@) is Some || get(v, "entity"@) is Some,
    ensures
        evaluator_job(id, seq![(rule_id, v)]) == (id as u64, seq![job_input_of(v)]),
        evaluator_job(id, Seq::empty()) == (
            id as u64,
            seq![("default"@, "transaction"@, Some(("named"@, "today"@, Seq::<char>::empty(), Seq::<char>::empty())))],
        ),
{
    let rules = seq![(rule_id, v)];
    assert(rules.drop_last() =~= Seq::<(i64, JsonView)>::empty());
    assert(input_values(v) == seq![v]);
    assert(seq![v].map_values(|x: JsonView| job_input_of(x)) =~= seq![job_input_of(v)]);
    assert(rules_inputs(rules.drop_last()) == Seq::<JobInputView>::empty());
    assert(rules.last() == (rule_id, v));
    assert(rule_inputs(rule_id, v) == seq![job_input_of(v)]);
    assert(rules_inputs(rules) == rules_inputs(rules.drop_last()) + rule_inputs(rule_id, v));
    assert(rules_inputs(rules) =~= seq![job_input_of(v)]);
}

} // verus!
