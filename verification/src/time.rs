//! UTC instants as plain values, and the calls into `chrono` that read and
//! write them.

use vstd::prelude::*;
use chrono::{Datelike, Timelike};

verus! {

/// A UTC instant: the proleptic Gregorian day (days from 0001-01-01, which is
/// day 1), the second of that day and the nanosecond within the second
/// (at least 1_000_000_000 only during a leap second).
#[derive(Debug, Clone, Copy, PartialEq, Eq, Structural)]
pub struct UtcTime {
    pub day: i32,
    pub secs: u32,
    pub nanos: u32,
}

/// The first day `chrono` can represent (-262143-01-01).
pub const MIN_DAY: i32 = -95746129;

/// The last day `chrono` can represent (262142-12-31).
pub const MAX_DAY: i32 = 95745399;

/// A day that `chrono` can represent.
pub open spec fn valid_day(d: i32) -> bool {
    MIN_DAY <= d <= MAX_DAY
}

impl UtcTime {
    /// An instant `chrono` can represent.
    pub open spec fn wf(self) -> bool {
        &&& valid_day(self.day)
        &&& self.secs < 86400
        &&& (self.nanos < 1_000_000_000 || (self.secs % 60 == 59 && self.nanos < 2_000_000_000))
    }

    /// An instant one second after which `chrono` can still represent: not
    /// within the last second of its last day.
    pub open spec fn before_last_second(self) -> bool {
        !(self.day == MAX_DAY && self.secs == 86399)
    }
}

/// Instants in time order.
pub open spec fn time_le(a: UtcTime, b: UtcTime) -> bool {
    a.day < b.day || (a.day == b.day && (a.secs < b.secs || (a.secs == b.secs && a.nanos <= b.nanos)))
}

/// Whether `a` is not later than `b`.
pub fn utc_le(a: &UtcTime, b: &UtcTime) -> (r: bool)
    ensures
        r == time_le(*a, *b),
{
    a.day < b.day || (a.day == b.day && (a.secs < b.secs || (a.secs == b.secs && a.nanos <= b.nanos)))
}

/// Midnight of a day.
pub open spec fn start_of_day(day: i32) -> UtcTime {
    UtcTime { day, secs: 0, nanos: 0 }
}

/// 23:59:59 of a day.
pub open spec fn end_of_day(day: i32) -> UtcTime {
    UtcTime { day, secs: 86399, nanos: 0 }
}

/// What `DateTime::parse_from_rfc3339` reads from a text, as a UTC instant.
pub uninterp spec fn rfc3339_instant(s: Seq<char>) -> Option<UtcTime>;

/// What `NaiveDateTime::parse_from_str` reads from a text with a format.
pub uninterp spec fn naive_datetime_parse(s: Seq<char>, fmt: Seq<char>) -> Option<UtcTime>;

/// What `NaiveDate::parse_from_str` reads from a text with a format.
pub uninterp spec fn naive_date_parse(s: Seq<char>, fmt: Seq<char>) -> Option<i32>;

/// What `NaiveDate::format("%Y%m%d")` writes for a day.
pub uninterp spec fn compact_date(day: i32) -> Seq<char>;

/// `chrono::DateTime::parse_from_rfc3339`, taken to UTC: a representable
/// instant when the text is an RFC 3339 date and time.
#[verifier::external_body]
pub(crate) fn parse_rfc3339(s: &str) -> (r: Option<UtcTime>)
    ensures
        r == rfc3339_instant(s@),
        r matches Some(t) ==> t.wf(),
{
    chrono::DateTime::parse_from_rfc3339(s).ok().map(|dt| {
        let n = dt.naive_utc();
        UtcTime { day: n.num_days_from_ce(), secs: n.num_seconds_from_midnight(), nanos: n.nanosecond() }
    })
}

/// `chrono::NaiveDateTime::parse_from_str`, read as UTC.
#[verifier::external_body]
pub(crate) fn parse_naive_datetime(s: &str, fmt: &str) -> (r: Option<UtcTime>)
    ensures
        r == naive_datetime_parse(s@, fmt@),
        r matches Some(t) ==> t.wf(),
{
    chrono::NaiveDateTime::parse_from_str(s, fmt).ok().map(|n| UtcTime {
        day: n.num_days_from_ce(),
        secs: n.num_seconds_from_midnight(),
        nanos: n.nanosecond(),
    })
}

/// `chrono::NaiveDate::parse_from_str`, as a day number.
#[verifier::external_body]
pub(crate) fn parse_naive_date(s: &str, fmt: &str) -> (r: Option<i32>)
    ensures
        r == naive_date_parse(s@, fmt@),
        r matches Some(d) ==> valid_day(d),
{
    chrono::NaiveDate::parse_from_str(s, fmt).ok().map(|d| d.num_days_from_ce())
}

/// `chrono::NaiveDate::format("%Y%m%d")` of a representable day.
#[verifier::external_body]
pub(crate) fn format_compact_date(day: i32) -> (r: String)
    requires
        valid_day(day),
    ensures
        r@ == compact_date(day),
{
    match chrono::NaiveDate::from_num_days_from_ce_opt(day) {
        Some(d) => d.format("%Y%m%d").to_string(),
        None => String::new(),
    }
}

/// What `NaiveDateTime`'s `Debug` writes for an instant (the form `serde`
/// gives it, such as `2024-01-01T00:00:00`).
pub uninterp spec fn naive_iso_text(t: UtcTime) -> Seq<char>;

/// What `DateTime<Utc>::to_rfc3339_opts(SecondsFormat::AutoSi, true)`
/// writes for an instant (the form `serde` gives it, such as
/// `2024-01-01T00:00:00Z`).
pub uninterp spec fn utc_rfc3339_text(t: UtcTime) -> Seq<char>;

/// `chrono::NaiveDateTime` written by its `Debug` impl (every instant that
/// `wf` admits is one `chrono` holds).
#[verifier::external_body]
pub(crate) fn naive_iso(t: &UtcTime) -> (r: String)
    requires
        t.wf(),
    ensures
        r@ == naive_iso_text(*t),
{
    let d = chrono::NaiveDate::from_num_days_from_ce_opt(t.day);
    let tm = chrono::NaiveTime::from_num_seconds_from_midnight_opt(t.secs, t.nanos);
    match (d, tm) {
        (Some(d), Some(tm)) => format!("{:?}", chrono::NaiveDateTime::new(d, tm)),
        _ => String::new(),
    }
}

/// `chrono::DateTime::<Utc>::to_rfc3339_opts(SecondsFormat::AutoSi, true)`
/// (every instant that `wf` admits is one `chrono` holds).
#[verifier::external_body]
pub(crate) fn utc_rfc3339(t: &UtcTime) -> (r: String)
    requires
        t.wf(),
    ensures
        r@ == utc_rfc3339_text(*t),
{
    let d = chrono::NaiveDate::from_num_days_from_ce_opt(t.day);
    let tm = chrono::NaiveTime::from_num_seconds_from_midnight_opt(t.secs, t.nanos);
    match (d, tm) {
        (Some(d), Some(tm)) => {
            chrono::NaiveDateTime::new(d, tm).and_utc().to_rfc3339_opts(chrono::SecondsFormat::AutoSi, true)
        },
        _ => String::new(),
    }
}

} // verus!
