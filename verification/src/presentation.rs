//! The benefits API's decisions: whether an evaluator is valid now, the
//! queries for today's benefits, the time limits, and the caches that keep
//! answers for a while.

use vstd::prelude::*;
use crate::json::JsonValue;
use crate::text::{push_str, push_decimal_i64, decimal_i64};
use crate::time::{UtcTime, time_le, naive_datetime_parse, parse_naive_datetime};
use crate::evaluator::{setting_u64, parse_setting};

verus! {

/// The query of `GET /benefits`: a customer and, optionally, an evaluator.
#[derive(Debug, Clone, Copy, PartialEq, Eq, Structural)]
pub struct GetBenefitParams {
    pub customer_id: i64,
    pub evaluator_id: Option<i64>,
}

/// The HTTP statuses the API answers with besides 200.
#[derive(Debug, Clone, Copy, PartialEq, Eq, Structural)]
pub enum HttpStatus {
    NotFound,
    Forbidden,
    InternalServerError,
    RequestTimeout,
}

impl HttpStatus {
    /// The status code.
    pub fn code(&self) -> (c: u16)
        ensures
            c == match *self {
                HttpStatus::NotFound => 404u16,
                HttpStatus::Forbidden => 403u16,
                HttpStatus::InternalServerError => 500u16,
                HttpStatus::RequestTimeout => 408u16,
            },
    {
        match self {
            HttpStatus::NotFound => 404,
            HttpStatus::Forbidden => 403,
            HttpStatus::InternalServerError => 500,
            HttpStatus::RequestTimeout => 408,
        }
    }
}

/// What the validity check reads of an evaluator.
#[derive(Debug, Clone, Copy, PartialEq, Eq, Structural)]
pub struct EvaluatorRow {
    pub is_active: bool,
    pub start_valid_date: Option<UtcTime>,
    pub end_valid_date: Option<UtcTime>,
}

/// What `NaiveDateTime`'s `Display` writes for an instant.
pub uninterp spec fn naive_display(t: UtcTime) -> Seq<char>;

/// `chrono::NaiveDateTime` as `Display` writes it, for a representable
/// instant.
#[verifier::external_body]
fn display_naive(t: &UtcTime) -> (r: String)
    requires
        t.wf(),
    ensures
        r@ == naive_display(*t),
{
    let d = chrono::NaiveDate::from_num_days_from_ce_opt(t.day);
    let tm = chrono::NaiveTime::from_num_seconds_from_midnight_opt(t.secs, t.nanos);
    match (d, tm) {
        (Some(d), Some(tm)) => chrono::NaiveDateTime::new(d, tm).to_string(),
        _ => String::new(),
    }
}

/// Whether an evaluator may be used now: it exists, is active, and now is
/// neither before its start nor after its end (a missing bound does not
/// limit).
pub open spec fn evaluator_valid(row: Option<EvaluatorRow>, now: UtcTime) -> bool {
    match row {
        None => false,
        Some(r) => r.is_active && (match r.start_valid_date {
            Some(s) => time_le(s, now),
            None => true,
        }) && (match r.end_valid_date {
            Some(e) => time_le(now, e),
            None => true,
        }),
    }
}

/// The answer of the validity check: which status and message explain a
/// refusal.
pub open spec fn validity_spec(evaluator_id: i64, row: Option<EvaluatorRow>, now: UtcTime) -> Result<
    (),
    (HttpStatus, Seq<char>),
> {
    let e = decimal_i64(evaluator_id);
    match row {
        None => Err((HttpStatus::NotFound, "evaluator "@ + e + " not found"@)),
        Some(r) => if !r.is_active {
            Err((HttpStatus::Forbidden, "evaluator "@ + e + " is not active"@))
        } else {
            match r.start_valid_date {
                Some(s) if !time_le(s, now) => Err(
                    (
                        HttpStatus::Forbidden,
                        "evaluator "@ + e + " not yet valid: now "@ + naive_display(now) + " < start_valid_date "@
                            + naive_display(s),
                    ),
                ),
                _ => match r.end_valid_date {
                    Some(en) if !time_le(now, en) => Err(
                        (
                            HttpStatus::Forbidden,
                            "evaluator "@ + e + " expired: now "@ + naive_display(now) + " > end_valid_date "@
                                + naive_display(en),
                        ),
                    ),
                    _ => Ok(()),
                },
            }
        },
    }
}

/// Checks an evaluator (the row read for it, if any) against the current
/// time.
pub fn check_evaluator_valid(evaluator_id: i64, row: Option<EvaluatorRow>, now: UtcTime) -> (r: Result<
    (),
    (HttpStatus, String),
>)
    requires
        now.wf(),
        row matches Some(x) ==> (x.start_valid_date matches Some(s) ==> s.wf()) && (x.end_valid_date matches Some(
            e,
        ) ==> e.wf()),
    ensures
        match validity_spec(evaluator_id, row, now) {
            Ok(()) => r is Ok,
            Err((st, m)) => r matches Err((s2, m2)) && s2 == st && m2@ == m,
        },
        r is Ok <==> evaluator_valid(row, now),
{
    let mut m = "evaluator ".to_owned();
    push_decimal_i64(&mut m, evaluator_id);
    match row {
        None => {
            push_str(&mut m, " not found");
            Err((HttpStatus::NotFound, m))
        },
        Some(r) => {
            if !r.is_active {
                push_str(&mut m, " is not active");
                return Err((HttpStatus::Forbidden, m));
            }
            if let Some(s) = r.start_valid_date {
                if !crate::time::utc_le(&s, &now) {
                    push_str(&mut m, " not yet valid: now ");
                    let a = display_naive(&now);
                    push_str(&mut m, a.as_str());
                    push_str(&mut m, " < start_valid_date ");
                    let b = display_naive(&s);
                    push_str(&mut m, b.as_str());
                    return Err((HttpStatus::Forbidden, m));
                }
            }
            if let Some(en) = r.end_valid_date {
                if !crate::time::utc_le(&now, &en) {
                    push_str(&mut m, " expired: now ");
                    let a = display_naive(&now);
                    push_str(&mut m, a.as_str());
                    push_str(&mut m, " > end_valid_date ");
                    let b = display_naive(&en);
                    push_str(&mut m, b.as_str());
                    return Err((HttpStatus::Forbidden, m));
                }
            }
            Ok(())
        },
    }
}

pub open spec fn benefits_by_customer_sql() -> Seq<char> {
    "SELECT id, evaluator_id, customer_id, value, description, CAST(expired_at AS CHAR) as expired_at, CAST(created_at AS CHAR) as created_at FROM benefit WHERE customer_id = ? AND created_at >= CURDATE() AND created_at < CURDATE() + INTERVAL 1 DAY"@
}

pub open spec fn benefits_by_customer_and_evaluator_sql() -> Seq<char> {
    "SELECT id, evaluator_id, customer_id, value, description, CAST(expired_at AS CHAR) as expired_at, CAST(created_at AS CHAR) as created_at FROM benefit WHERE customer_id = ? AND evaluator_id = ? AND created_at >= CURDATE() AND created_at < CURDATE() + INTERVAL 1 DAY"@
}

/// The query for a customer's benefits created today (a range on
/// `created_at`), with the evaluator bound too when one is given.
pub fn benefits_today_sql(with_evaluator: bool) -> (r: &'static str)
    ensures
        r@ == if with_evaluator {
            benefits_by_customer_and_evaluator_sql()
        } else {
            benefits_by_customer_sql()
        },
{
    if with_evaluator {
        "SELECT id, evaluator_id, customer_id, value, description, CAST(expired_at AS CHAR) as expired_at, CAST(created_at AS CHAR) as created_at FROM benefit WHERE customer_id = ? AND evaluator_id = ? AND created_at >= CURDATE() AND created_at < CURDATE() + INTERVAL 1 DAY"
    } else {
        "SELECT id, evaluator_id, customer_id, value, description, CAST(expired_at AS CHAR) as expired_at, CAST(created_at AS CHAR) as created_at FROM benefit WHERE customer_id = ? AND created_at >= CURDATE() AND created_at < CURDATE() + INTERVAL 1 DAY"
    }
}

/// A time setting in milliseconds: the setting when it is a number, else
/// the default.
pub fn setting_ms(setting: Option<&str>, default_ms: u64) -> (r: u64)
    ensures
        r == match setting_u64(
            match setting {
                Some(s) => Some(s@),
                None => None,
            },
        ) {
            Some(x) => x,
            None => default_ms,
        },
{
    match parse_setting(setting) {
        Some(x) => x,
        None => default_ms,
    }
}

/// The API's time limit: `API_TIMEOUT_MS`, else 500 ms.
pub fn api_timeout_ms(setting: Option<&str>) -> (r: u64)
    ensures
        r == match setting_u64(
            match setting {
                Some(s) => Some(s@),
                None => None,
            },
        ) {
            Some(x) => x,
            None => 500,
        },
{
    setting_ms(setting, 500)
}

/// How long benefits stay cached: `BENEFIT_CACHE_TTL_MS`, else 30 s.
pub fn benefit_cache_ttl_ms(setting: Option<&str>) -> (r: u64)
    ensures
        r == match setting_u64(
            match setting {
                Some(s) => Some(s@),
                None => None,
            },
        ) {
            Some(x) => x,
            None => 30_000,
        },
{
    setting_ms(setting, 30_000)
}

/// How long validity checks stay cached: `EVALUATOR_CACHE_TTL_MS`, else 60 s.
pub fn evaluator_cache_ttl_ms(setting: Option<&str>) -> (r: u64)
    ensures
        r == match setting_u64(
            match setting {
                Some(s) => Some(s@),
                None => None,
            },
        ) {
            Some(x) => x,
            None => 60_000,
        },
{
    setting_ms(setting, 60_000)
}

/// The items whose flag is set, in order.
pub open spec fn kept<T>(items: Seq<T>, keep: Seq<bool>) -> Seq<T>
    decreases items.len(),
{
    if items.len() == 0 {
        Seq::empty()
    } else {
        let r = kept(items.drop_last(), keep);
        if keep[items.len() - 1] {
            r.push(items.last())
        } else {
            r
        }
    }
}

/// Keeps the items whose flag is set (the benefits whose evaluator is
/// valid).
pub fn keep_flagged<T>(items: Vec<T>, keep: &Vec<bool>) -> (r: Vec<T>)
    requires
        keep@.len() == items@.len(),
    ensures
        r@ == kept(items@, keep@),
{
    let ghost all = items@;
    let n = items.len();
    let mut out: Vec<T> = Vec::new();
    let mut rest = items;
    let mut rev: Vec<T> = Vec::new();
    while rest.len() > 0
        invariant
            rev@ + rest@.reverse() == all.reverse(),
        decreases rest.len(),
    {
        let ghost r0 = rest@;
        let ghost v0 = rev@;
        let x = rest.pop().unwrap();
        assert(r0 =~= rest@.push(x));
        rev.push(x);
        assert(r0.reverse() =~= seq![x] + rest@.reverse());
        assert(rev@ + rest@.reverse() =~= v0 + r0.reverse());
    }
    assert(rest@.reverse() =~= Seq::<T>::empty());
    assert(rev@ =~= all.reverse());
    let mut i: usize = 0;
    while rev.len() > 0
        invariant
            i + rev@.len() == all.len(),
            all.len() == n,
            keep@.len() == all.len(),
            rev@ == all.skip(i as int).reverse(),
            out@ == kept(all.take(i as int), keep@),
        decreases rev.len(),
    {
        let ghost r0 = rev@;
        let x = rev.pop().unwrap();
        assert(r0 =~= rev@.push(x));
        assert(x == all[i as int]) by {
            assert(r0.last() == all.skip(i as int).reverse().last());
        }
        assert(rev@ =~= all.skip(i + 1).reverse());
        assert(all.take(i + 1).drop_last() =~= all.take(i as int));
        assert(all.take(i + 1).last() == x);
        if keep[i] {
            out.push(x);
        }
        i = i + 1;
    }
    assert(all.take(all.len() as int) =~= all);
    out
}

/// Reads a `TIMESTAMP` column given as text: `%Y-%m-%d %H:%M:%S`, and for
/// `created_at` also with fractions of a second or with a `T`.
pub fn parse_benefit_timestamp(s: &str, created_at: bool) -> (r: Option<UtcTime>)
    ensures
        r == if !created_at {
            naive_datetime_parse(s@, "%Y-%m-%d %H:%M:%S"@)
        } else {
            match naive_datetime_parse(s@, "%Y-%m-%d %H:%M:%S"@) {
                Some(x) => Some(x),
                None => match naive_datetime_parse(s@, "%Y-%m-%d %H:%M:%S%.f"@) {
                    Some(x) => Some(x),
                    None => naive_datetime_parse(s@, "%Y-%m-%dT%H:%M:%S"@),
                },
            }
        },
{
    let a = parse_naive_datetime(s, "%Y-%m-%d %H:%M:%S");
    if !created_at || a.is_some() {
        return a;
    }
    let b = parse_naive_datetime(s, "%Y-%m-%d %H:%M:%S%.f");
    if b.is_some() {
        return b;
    }
    parse_naive_datetime(s, "%Y-%m-%dT%H:%M:%S")
}

// ---------------------------------------------------------------------------
// caches
// ---------------------------------------------------------------------------

/// A key that can be compared.
pub trait CacheKey: Sized + Copy {
    fn same(&self, other: &Self) -> (r: bool)
        ensures
            r == (*self == *other),
    ;
}

impl CacheKey for i64 {
    fn same(&self, other: &Self) -> (r: bool) {
        *self == *other
    }
}

/// The key of cached benefits: a customer and the evaluator asked for.
#[derive(Debug, Clone, Copy, PartialEq, Eq, Structural)]
pub struct BenefitKey {
    pub customer_id: i64,
    pub evaluator_id: Option<i64>,
}

impl CacheKey for BenefitKey {
    fn same(&self, other: &Self) -> (r: bool) {
        self.customer_id == other.customer_id && match (self.evaluator_id, other.evaluator_id) {
            (Some(a), Some(b)) => a == b,
            (None, None) => true,
            _ => false,
        }
    }
}

/// The entries as a map from key to value and expiry (later entries win).
pub open spec fn entries_map<K, V>(es: Seq<(K, V, u64)>) -> Map<K, (V, u64)>
    decreases es.len(),
{
    if es.len() == 0 {
        Map::empty()
    } else {
        entries_map(es.drop_last()).insert(es.last().0, (es.last().1, es.last().2))
    }
}

pub open spec fn distinct_keys<K, V>(es: Seq<(K, V, u64)>) -> bool {
    forall|i: int, j: int| 0 <= i < j < es.len() ==> (#[trigger] es[i]).0 != (#[trigger] es[j]).0
}

proof fn lemma_entries_map<K, V>(es: Seq<(K, V, u64)>)
    requires
        distinct_keys(es),
    ensures
        forall|i: int| 0 <= i < es.len() ==> #[trigger] entries_map(es).contains_key(es[i].0) && entries_map(es)[es[i].0]
            == (es[i].1, es[i].2),
        forall|k: K| #[trigger] entries_map(es).contains_key(k) ==> exists|i: int| 0 <= i < es.len() && es[i].0 == k,
    decreases es.len(),
{
    if es.len() > 0 {
        let d = es.drop_last();
        let n = es.len() - 1;
        assert(distinct_keys(d)) by {
            assert forall|i: int, j: int| 0 <= i < j < d.len() implies (#[trigger] d[i]).0 != (#[trigger] d[j]).0 by {
                assert(d[i] == es[i]);
                assert(d[j] == es[j]);
            }
        }
        lemma_entries_map(d);
        assert forall|i: int| 0 <= i < es.len() implies #[trigger] entries_map(es).contains_key(es[i].0)
            && entries_map(es)[es[i].0] == (es[i].1, es[i].2) by {
            if i < n {
                assert(d[i] == es[i]);
                assert(entries_map(d).contains_key(d[i].0));
                assert(es[i].0 != es[n].0);
            }
        }
        assert forall|k: K| #[trigger] entries_map(es).contains_key(k) implies exists|i: int| 0 <= i < es.len() && es[i].0 == k by {
            if k != es[n].0 {
                assert(entries_map(d).contains_key(k));
                let i = choose|i: int| 0 <= i < d.len() && d[i].0 == k;
                assert(es[i] == d[i]);
            } else {
                assert(es[n].0 == k);
            }
        }
    }
}

/// A key no entry has is not in the map.
proof fn lemma_entries_map_absent<K, V>(es: Seq<(K, V, u64)>, k: K)
    requires
        forall|i: int| 0 <= i < es.len() ==> (#[trigger] es[i]).0 != k,
    ensures
        !entries_map(es).contains_key(k),
    decreases es.len(),
{
    if es.len() > 0 {
        let d = es.drop_last();
        assert forall|i: int| 0 <= i < d.len() implies (#[trigger] d[i]).0 != k by {
            assert(d[i] == es[i]);
        }
        lemma_entries_map_absent(d, k);
        assert(es[es.len() - 1].0 != k);
    }
}

/// The map of distinct entries, read entry by entry.
proof fn lemma_entries_map_eq<K, V>(es: Seq<(K, V, u64)>, m: Map<K, (V, u64)>)
    requires
        distinct_keys(es),
        forall|i: int| 0 <= i < es.len() ==> #[trigger] m.contains_key(es[i].0) && m[es[i].0] == (es[i].1, es[i].2),
        forall|k: K| #[trigger] m.contains_key(k) ==> exists|i: int| 0 <= i < es.len() && es[i].0 == k,
    ensures
        entries_map(es) == m,
{
    lemma_entries_map(es);
    let e = entries_map(es);
    assert forall|k: K| e.contains_key(k) <==> m.contains_key(k) by {
        if e.contains_key(k) {
            let i = choose|i: int| 0 <= i < es.len() && es[i].0 == k;
            assert(m.contains_key(es[i].0));
        }
        if m.contains_key(k) {
            let i = choose|i: int| 0 <= i < es.len() && es[i].0 == k;
            assert(e.contains_key(es[i].0));
        }
    }
    assert forall|k: K| e.contains_key(k) implies e[k] == m[k] by {
        let i = choose|i: int| 0 <= i < es.len() && es[i].0 == k;
        assert(e.contains_key(es[i].0));
        assert(m.contains_key(es[i].0));
    }
    assert(e =~= m);
}

/// Values kept until they expire.
pub struct TtlCache<K, V> {
    entries: Vec<(K, V, u64)>,
}

impl<K: CacheKey, V> TtlCache<K, V> {
    /// Each key with its value and the time (in ms) it expires at.
    pub closed spec fn view(&self) -> Map<K, (V, u64)> {
        entries_map(self.entries@)
    }

    pub closed spec fn wf(&self) -> bool {
        distinct_keys(self.entries@)
    }

    /// What `get` finds for a key at time `now`: its value while `now` is
    /// before its expiry.
    pub open spec fn lookup(&self, k: K, now: u64) -> Option<V> {
        if self.view().contains_key(k) && now < self.view()[k].1 {
            Some(self.view()[k].0)
        } else {
            None
        }
    }

    /// An empty cache.
    pub fn new() -> (c: Self)
        ensures
            c.wf(),
            c.view() == Map::<K, (V, u64)>::empty(),
    {
        TtlCache { entries: Vec::new() }
    }

    fn find(&self, k: &K) -> (r: Option<usize>)
        requires
            self.wf(),
        ensures
            match r {
                Some(i) => i < self.entries@.len() && self.entries@[i as int].0 == *k,
                None => forall|i: int| 0 <= i < self.entries@.len() ==> (#[trigger] self.entries@[i]).0 != *k,
            },
    {
        let mut i: usize = 0;
        while i < self.entries.len()
            invariant
                i <= self.entries@.len(),
                forall|j: int| 0 <= j < i ==> (#[trigger] self.entries@[j]).0 != *k,
            decreases self.entries.len() - i,
        {
            if self.entries[i].0.same(k) {
                return Some(i);
            }
            i = i + 1;
        }
        None
    }

    /// The value cached for a key, unless it has expired at `now`.
    pub fn get(&self, k: &K, now: u64) -> (r: Option<&V>)
        requires
            self.wf(),
        ensures
            match self.lookup(*k, now) {
                Some(v) => r matches Some(x) && *x == v,
                None => r is None,
            },
    {
        proof {
            lemma_entries_map(self.entries@);
        }
        match self.find(k) {
            Some(i) => {
                proof {
                    assert(entries_map(self.entries@).contains_key(self.entries@[i as int].0));
                }
                if now < self.entries[i].2 {
                    Some(&self.entries[i].1)
                } else {
                    None
                }
            },
            None => {
                proof {
                    lemma_entries_map_absent(self.entries@, *k);
                }
                None
            },
        }
    }

    /// Caches a value for a key from `now` on, for `ttl` ms.
    pub fn insert(&mut self, k: K, v: V, now: u64, ttl: u64)
        requires
            old(self).wf(),
            now + ttl <= u64::MAX,
        ensures
            final(self).wf(),
            final(self).view() == old(self).view().insert(k, (v, (now + ttl) as u64)),
    {
        let ghost before = self.entries@;
        proof {
            lemma_entries_map(before);
        }
        let exp = now + ttl;
        match self.find(&k) {
            Some(i) => {
                self.entries.set(i, (k, v, exp));
                proof {
                    let es = self.entries@;
                    assert(distinct_keys(es)) by {
                        assert forall|a: int, b: int| 0 <= a < b < es.len() implies (#[trigger] es[a]).0 != (#[trigger] es[b]).0 by {
                            assert(es[a].0 == before[a].0 && es[b].0 == before[b].0);
                        }
                    }
                    let m2 = entries_map(before).insert(k, (v, exp));
                    assert forall|j: int| 0 <= j < es.len() implies #[trigger] m2.contains_key(es[j].0) && m2[es[j].0] == (es[j].1, es[j].2) by {
                        if j != i {
                            assert(es[j] == before[j]);
                            assert(entries_map(before).contains_key(before[j].0));
                            assert(before[j].0 != before[i as int].0);
                        }
                    }
                    assert forall|key: K| #[trigger] m2.contains_key(key) implies exists|j: int| 0 <= j < es.len() && es[j].0 == key by {
                        if key == k {
                            assert(es[i as int].0 == key);
                        } else {
                            assert(entries_map(before).contains_key(key));
                            let j = choose|j: int| 0 <= j < before.len() && before[j].0 == key;
                            assert(es[j].0 == key);
                        }
                    }
                    lemma_entries_map_eq(es, m2);
                }
            },
            None => {
                self.entries.push((k, v, exp));
                proof {
                    let es = self.entries@;
                    assert(es.drop_last() =~= before);
                    assert(distinct_keys(es)) by {
                        assert forall|a: int, b: int| 0 <= a < b < es.len() implies (#[trigger] es[a]).0 != (#[trigger] es[b]).0 by {
                            if b == es.len() - 1 {
                                assert(es[a] == before[a]);
                            } else {
                                assert(es[a] == before[a] && es[b] == before[b]);
                            }
                        }
                    }
                }
            },
        }
    }

    /// Forgets everything.
    pub fn clear(&mut self)
        ensures
            final(self).wf(),
            final(self).view() == Map::<K, (V, u64)>::empty(),
    {
        self.entries.clear();
    }

    /// Forgets what has expired at `now`.
    pub fn evict_expired(&mut self, now: u64)
        requires
            old(self).wf(),
        ensures
            final(self).wf(),
            final(self).view() == live_map(old(self).view(), now),
    {
        let ghost before = self.entries@;
        let mut kept_entries: Vec<(K, V, u64)> = Vec::new();
        let ghost mut i: int = 0;
        assert(before.skip(0) =~= before);
        while self.entries.len() > 0
            invariant
                0 <= i <= before.len(),
                self.entries@ == before.skip(i),
                kept_entries@ == live(before.take(i), now),
            decreases self.entries.len(),
        {
            let e = self.entries.remove(0);
            proof {
                assert(e == before[i]);
                assert(before.take(i + 1).drop_last() =~= before.take(i));
                assert(before.take(i + 1).last() == e);
                assert(self.entries@ =~= before.skip(i + 1));
            }
            if now < e.2 {
                kept_entries.push(e);
            }
            proof {
                i = i + 1;
            }
        }
        proof {
            assert(before.take(i) =~= before);
            lemma_live(before, now);
        }
        self.entries = kept_entries;
    }
}

/// The entries that have not expired at `now`, in order.
pub open spec fn live<K, V>(es: Seq<(K, V, u64)>, now: u64) -> Seq<(K, V, u64)>
    decreases es.len(),
{
    if es.len() == 0 {
        Seq::empty()
    } else {
        let r = live(es.drop_last(), now);
        if now < es.last().2 {
            r.push(es.last())
        } else {
            r
        }
    }
}

/// The keys of a map that have not expired at `now`.
pub open spec fn live_map<K, V>(m: Map<K, (V, u64)>, now: u64) -> Map<K, (V, u64)> {
    Map::new(|k: K| m.contains_key(k) && now < m[k].1, |k: K| m[k])
}

proof fn lemma_live<K, V>(es: Seq<(K, V, u64)>, now: u64)
    requires
        distinct_keys(es),
    ensures
        distinct_keys(live(es, now)),
        entries_map(live(es, now)) == live_map(entries_map(es), now),
        forall|i: int| 0 <= i < live(es, now).len() ==> exists|j: int| 0 <= j < es.len() && es[j] == #[trigger] live(es, now)[i],
    decreases es.len(),
{
    if es.len() == 0 {
        assert(live_map(entries_map(es), now) =~= Map::<K, (V, u64)>::empty());
    } else {
        let d = es.drop_last();
        let e = es.last();
        assert(distinct_keys(d)) by {
            assert forall|a: int, b: int| 0 <= a < b < d.len() implies (#[trigger] d[a]).0 != (#[trigger] d[b]).0 by {
                assert(d[a] == es[a] && d[b] == es[b]);
            }
        }
        lemma_live(d, now);
        let ld = live(d, now);
        assert forall|a: int| 0 <= a < d.len() implies (#[trigger] d[a]).0 != e.0 by {
            assert(d[a] == es[a]);
            assert(es[es.len() - 1] == e);
        }
        lemma_entries_map_absent(d, e.0);
        assert forall|a: int| 0 <= a < ld.len() implies (#[trigger] ld[a]).0 != e.0 by {
            let j = choose|j: int| 0 <= j < d.len() && d[j] == ld[a];
        }
        if now < e.2 {
            let l = ld.push(e);
            assert(distinct_keys(l)) by {
                assert forall|a: int, b: int| 0 <= a < b < l.len() implies (#[trigger] l[a]).0 != (#[trigger] l[b]).0 by {
                    if b == ld.len() {
                        assert(l[a] == ld[a]);
                    } else {
                        assert(l[a] == ld[a] && l[b] == ld[b]);
                    }
                }
            }
            let mm = entries_map(d);
            assert(l.drop_last() =~= ld);
            assert(entries_map(es) == mm.insert(e.0, (e.1, e.2)));
            assert(entries_map(l) == entries_map(ld).insert(e.0, (e.1, e.2)));
            assert(entries_map(l) =~= live_map(entries_map(es), now));
            assert forall|i: int| 0 <= i < l.len() implies exists|j: int| 0 <= j < es.len() && es[j] == #[trigger] l[i] by {
                if i == ld.len() {
                    assert(es[es.len() - 1] == l[i]);
                } else {
                    let j = choose|j: int| 0 <= j < d.len() && d[j] == ld[i];
                    assert(es[j] == d[j]);
                }
            }
        } else {
            assert(entries_map(ld) =~= live_map(entries_map(es), now));
            assert forall|i: int| 0 <= i < ld.len() implies exists|j: int| 0 <= j < es.len() && es[j] == #[trigger] ld[i] by {
                let j = choose|j: int| 0 <= j < d.len() && d[j] == ld[i];
                assert(es[j] == d[j]);
            }
        }
    }
}


/// A read gives back what was written: after `insert(k, v, now, ttl)`, `get`
/// of `k` finds `v` at any time before `now + ttl` and nothing from then on,
/// and every other key is answered as before.
pub proof fn law_cache_insert_then_get<K: CacheKey, V>(
    before: TtlCache<K, V>,
    after: TtlCache<K, V>,
    k: K,
    v: V,
    now: u64,
    ttl: u64,
)
    requires
        now + ttl <= u64::MAX,
        after.view() == before.view().insert(k, (v, (now + ttl) as u64)),
    ensures
        forall|t: u64| after.lookup(k, t) == (if t < now + ttl { Some(v) } else { None }),
        forall|k2: K, t: u64| k2 != k ==> after.lookup(k2, t) == before.lookup(k2, t),
{
}

/// Evicting what has expired at `now` changes no answer of `get` at `now`
/// or later.
pub proof fn law_cache_evict_keeps_answers<K: CacheKey, V>(before: TtlCache<K, V>, after: TtlCache<K, V>, now: u64)
    requires
        after.view() == live_map(before.view(), now),
    ensures
        forall|k: K, t: u64| now <= t ==> after.lookup(k, t) == before.lookup(k, t),
{
}

/// After `clear`, `get` finds nothing.
pub proof fn law_cache_clear_forgets<K: CacheKey, V>(after: TtlCache<K, V>)
    requires
        after.view() == Map::<K, (V, u64)>::empty(),
    ensures
        forall|k: K, t: u64| after.lookup(k, t) is None,
{
}

} // verus!
