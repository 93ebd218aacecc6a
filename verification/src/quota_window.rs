//! Sliding-window quota tracking per (model, key) pair and the choice of the
//! key that serves a request.
//!
//! Each tracker keeps the timestamps of successful calls in three sliding
//! windows (5 hours, a day, 30 days). A tracker is available when it is not
//! in a 5xx back-off and no window holds more calls than the model allows
//! (a limit of 0 means unlimited).

use vstd::prelude::*;
use std::collections::VecDeque;
use crate::clock::{self, clock_range};
use crate::model_manager::model_of_platform;
use crate::models::Model;
use crate::sorting::{keep, sort_by_order};
use crate::text::{copy_opt_string, decimal, owned, push_decimal, push_str, string_from_chars};

verus! {

/// Length of the short window in seconds (5 hours).
pub const FIVE_HOURS_SECS: i64 = 18000;
/// Length of the day window in seconds.
pub const DAY_SECS: i64 = 86400;
/// Length of the month window in seconds (30 days).
pub const MONTH_SECS: i64 = 2592000;

// ── Sliding window ──

/// `s` without its leading entries older than `cutoff`.
pub open spec fn expire(s: Seq<i64>, cutoff: int) -> Seq<i64>
    decreases s.len(),
{
    if s.len() > 0 && s[0] < cutoff {
        expire(s.drop_first(), cutoff)
    } else {
        s
    }
}

/// Whether the timestamps are in non-decreasing order.
pub open spec fn chronological(s: Seq<i64>) -> bool {
    forall|i: int, j: int| 0 <= i <= j < s.len() ==> s[i] <= s[j]
}

/// A sliding usage window: the timestamps of recorded calls, oldest first.
/// Entries older than the window are dropped whenever the window is cleaned
/// or a call is recorded.
#[derive(Debug, Clone)]
pub struct UsageWindow {
    pub timestamps: VecDeque<i64>,
}

impl View for UsageWindow {
    type V = Seq<i64>;

    open spec fn view(&self) -> Seq<i64> {
        self.timestamps@
    }
}

/// Whether `now - duration_secs` is representable.
pub open spec fn cutoff_ok(now: int, duration_secs: int) -> bool {
    i64::MIN <= now - duration_secs <= i64::MAX
}

impl UsageWindow {
    /// An empty window.
    pub fn new() -> (r: Self)
        ensures
            r@ == Seq::<i64>::empty(),
    {
        UsageWindow { timestamps: VecDeque::new() }
    }

    fn drop_before(&mut self, cutoff: i64)
        ensures
            final(self)@ == expire(old(self)@, cutoff as int),
    {
        while self.timestamps.len() > 0 && self.timestamps[0] < cutoff
            invariant
                expire(self@, cutoff as int) == expire(old(self)@, cutoff as int),
            decreases self.timestamps.len(),
        {
            let ghost before = self@;
            self.timestamps.pop_front();
            assert(self@ =~= before.drop_first());
        }
    }

    /// Records a call at `now` after dropping entries older than `now - duration_secs`.
    pub fn record(&mut self, now: i64, duration_secs: i64)
        requires
            cutoff_ok(now as int, duration_secs as int),
        ensures
            final(self)@ == expire(old(self)@, now - duration_secs).push(now),
    {
        let cutoff = now - duration_secs;
        self.drop_before(cutoff);
        self.timestamps.push_back(now);
    }

    /// Drops all entries older than `now - duration_secs`.
    pub fn clean_expired(&mut self, now: i64, duration_secs: i64)
        requires
            cutoff_ok(now as int, duration_secs as int),
        ensures
            final(self)@ == expire(old(self)@, now - duration_secs),
    {
        let cutoff = now - duration_secs;
        self.drop_before(cutoff);
    }

    /// Drops expired entries and returns how many remain.
    pub fn count_active(&mut self, now: i64, duration_secs: i64) -> (r: u32)
        requires
            cutoff_ok(now as int, duration_secs as int),
        ensures
            final(self)@ == expire(old(self)@, now - duration_secs),
            r == final(self)@.len() as u32,
    {
        self.clean_expired(now, duration_secs);
        self.timestamps.len() as u32
    }

    /// Number of entries held (stale entries included until the next cleaning).
    pub fn len(&self) -> (r: u32)
        ensures
            r == self@.len() as u32,
    {
        self.timestamps.len() as u32
    }

    /// Whether the window holds no entry.
    pub fn is_empty(&self) -> (r: bool)
        ensures
            r == (self@.len() == 0),
    {
        self.timestamps.len() == 0
    }

    /// The earliest entry held, or 0 when empty.
    pub fn window_start(&self) -> (r: i64)
        ensures
            r == if self@.len() > 0 { self@[0] } else { 0 },
    {
        if self.timestamps.len() > 0 {
            self.timestamps[0]
        } else {
            0
        }
    }
}

/// Entries at or after the cutoff are never dropped, and what is left starts at the cutoff.
pub proof fn lemma_expire_basics(s: Seq<i64>, cutoff: int)
    ensures
        expire(s, cutoff).len() <= s.len(),
        expire(s, cutoff) == s.skip(s.len() - expire(s, cutoff).len()),
        expire(s, cutoff).len() > 0 ==> expire(s, cutoff)[0] >= cutoff,
    decreases s.len(),
{
    if s.len() > 0 && s[0] < cutoff {
        lemma_expire_basics(s.drop_first(), cutoff);
        assert(s.drop_first().skip(s.drop_first().len() - expire(s, cutoff).len()) =~= s.skip(s.len() - expire(s, cutoff).len()));
    } else {
        assert(s.skip(0) =~= s);
    }
}

/// Cleaning a window twice with the same cutoff is the same as cleaning it once.
pub proof fn lemma_expire_idempotent(s: Seq<i64>, cutoff: int)
    ensures
        expire(expire(s, cutoff), cutoff) == expire(s, cutoff),
    decreases s.len(),
{
    if s.len() > 0 && s[0] < cutoff {
        lemma_expire_idempotent(s.drop_first(), cutoff);
    }
}

/// In a chronological window, cleaning keeps exactly the entries at or after
/// the cutoff: the window holds the calls of the last `duration` seconds.
pub proof fn lemma_expire_keeps_recent(s: Seq<i64>, cutoff: int)
    requires
        chronological(s),
    ensures
        chronological(expire(s, cutoff)),
        forall|t: i64| expire(s, cutoff).contains(t) <==> (s.contains(t) && t >= cutoff),
    decreases s.len(),
{
    if s.len() > 0 && s[0] < cutoff {
        let d = s.drop_first();
        assert(chronological(d)) by {
            assert forall|i: int, j: int| 0 <= i <= j < d.len() implies d[i] <= d[j] by {
                assert(d[i] == s[i + 1] && d[j] == s[j + 1]);
            }
        }
        lemma_expire_keeps_recent(d, cutoff);
        assert forall|t: i64| expire(s, cutoff).contains(t) <==> (s.contains(t) && t >= cutoff) by {
            if s.contains(t) && t >= cutoff {
                let k = choose|k: int| 0 <= k < s.len() && s[k] == t;
                assert(k != 0);
                assert(d[k - 1] == t);
            }
            if d.contains(t) {
                let k = choose|k: int| 0 <= k < d.len() && d[k] == t;
                assert(s[k + 1] == t);
            }
        }
    } else {
        assert forall|t: i64| s.contains(t) implies t >= cutoff by {
            let k = choose|k: int| 0 <= k < s.len() && s[k] == t;
            assert(s[0] <= s[k]);
        }
    }
}

/// Recording a call at a time no earlier than every held entry keeps the
/// window chronological, and the newest call is always counted.
pub proof fn lemma_record_chronological(s: Seq<i64>, now: i64, duration: int)
    requires
        chronological(s),
        forall|i: int| 0 <= i < s.len() ==> s[i] <= now,
    ensures
        chronological(expire(s, now - duration).push(now)),
        expire(s, now - duration).push(now).last() == now,
        expire(s, now - duration).push(now).len() == expire(s, now - duration).len() + 1,
{
    lemma_expire_keeps_recent(s, now - duration);
    lemma_expire_basics(s, now - duration);
    let e = expire(s, now - duration);
    let r = e.push(now);
    assert forall|i: int, j: int| 0 <= i <= j < r.len() implies r[i] <= r[j] by {
        if j == r.len() - 1 {
            if i < e.len() {
                assert(e.contains(e[i]));
                let k = choose|k: int| 0 <= k < s.len() && s[k] == e[i];
            }
        }
    }
}

// ── Limits ──

/// Request limits of a model (0 = unlimited).
#[derive(Debug, Clone, Copy)]
pub struct UsageLimits {
    pub max_per_5hrs: u32,
    pub max_per_day: u32,
    pub max_per_month: u32,
}

/// Limits used when the model is unknown: no limit at all.
pub open spec fn no_limits() -> UsageLimits {
    UsageLimits { max_per_5hrs: u32::MAX, max_per_day: u32::MAX, max_per_month: u32::MAX }
}

/// Index of the first model with the given id on the given platform.
pub open spec fn model_index(models: Seq<Model>, model_id: Seq<char>, platform_id: Seq<char>) -> Option<int>
    decreases models.len(),
{
    if models.len() == 0 {
        None
    } else {
        match model_index(models.drop_last(), model_id, platform_id) {
            Some(i) => Some(i),
            None => if models.last().id@ == model_id && models.last().platform_id@ == platform_id {
                Some(models.len() - 1)
            } else {
                None
            },
        }
    }
}

/// The limits of the model `model_id` on `platform_id`: the first model with
/// the id among the platform's models in sort order, or no limits when there
/// is none.
pub open spec fn limits_of(models: Seq<Model>, model_id: Seq<char>, platform_id: Seq<char>) -> UsageLimits {
    let ms = sort_by_order(keep(models, model_of_platform(platform_id)));
    match model_index(ms, model_id, platform_id) {
        Some(i) => UsageLimits {
            max_per_5hrs: ms[i].per_5hour,
            max_per_day: ms[i].per_day,
            max_per_month: ms[i].per_month,
        },
        None => no_limits(),
    }
}

proof fn lemma_model_index(models: Seq<Model>, model_id: Seq<char>, platform_id: Seq<char>, n: int)
    requires
        0 <= n <= models.len(),
    ensures
        model_index(models.take(n), model_id, platform_id) matches Some(i) ==>
            model_index(models, model_id, platform_id) == Some(i),
        (model_index(models.take(n), model_id, platform_id) is None && n < models.len()) ==> (
            if models[n].id@ == model_id && models[n].platform_id@ == platform_id {
                model_index(models.take(n + 1), model_id, platform_id) == Some(n)
            } else {
                model_index(models.take(n + 1), model_id, platform_id) is None
            }),
        n == models.len() ==> model_index(models.take(n), model_id, platform_id) == model_index(models, model_id, platform_id),
    decreases models.len() - n,
{
    if n < models.len() {
        assert(models.take(n + 1).drop_last() =~= models.take(n));
        lemma_model_index(models, model_id, platform_id, n + 1);
    } else {
        assert(models.take(n) =~= models);
    }
}

/// Finds the model `model_id` of `platform_id`.
fn find_model(models: &Vec<Model>, model_id: &String, platform_id: &String) -> (r: Option<usize>)
    ensures
        r matches Some(i) ==> i < models@.len() && model_index(models@, model_id@, platform_id@) == Some(i as int),
        r is None ==> model_index(models@, model_id@, platform_id@) is None,
{
    let mut i: usize = 0;
    while i < models.len()
        invariant
            i <= models.len(),
            model_index(models@.take(i as int), model_id@, platform_id@) is None,
        decreases models.len() - i,
    {
        proof {
            lemma_model_index(models@, model_id@, platform_id@, i as int);
        }
        if models[i].id == *model_id && models[i].platform_id == *platform_id {
            proof {
                lemma_model_index(models@, model_id@, platform_id@, i + 1);
            }
            return Some(i);
        }
        i += 1;
    }
    proof {
        lemma_model_index(models@, model_id@, platform_id@, i as int);
    }
    None
}

// ── Tracker ──

/// The data of a tracker.
#[verifier::ext_equal]
pub struct TrackerView {
    pub key_id: Seq<char>,
    pub model_id: Seq<char>,
    pub platform_id: Seq<char>,
    pub five_hour: Seq<i64>,
    pub day: Seq<i64>,
    pub month: Seq<i64>,
    pub consecutive_429: u32,
    pub consecutive_500: u32,
    pub last_429_time: i64,
    pub last_500_time: i64,
    pub disabled_until: Option<i64>,
    pub disabled_reason: Option<Seq<char>>,
}

/// The view of an optional string.
pub open spec fn opt_view(s: Option<String>) -> Option<Seq<char>> {
    match s {
        Some(v) => Some(v@),
        None => None,
    }
}

/// Tracker for one (model, key) pair.
#[derive(Debug, Clone)]
pub struct ModelKeyTracker {
    pub key_id: String,
    pub model_id: String,
    pub platform_id: String,
    pub five_hour: UsageWindow,
    pub day: UsageWindow,
    pub month: UsageWindow,
    pub consecutive_429: u32,
    pub consecutive_500: u32,
    pub last_429_time: i64,
    pub last_500_time: i64,
    pub disabled_until: Option<i64>,
    pub disabled_reason: Option<String>,
}

impl View for ModelKeyTracker {
    type V = TrackerView;

    open spec fn view(&self) -> TrackerView {
        TrackerView {
            key_id: self.key_id@,
            model_id: self.model_id@,
            platform_id: self.platform_id@,
            five_hour: self.five_hour@,
            day: self.day@,
            month: self.month@,
            consecutive_429: self.consecutive_429,
            consecutive_500: self.consecutive_500,
            last_429_time: self.last_429_time,
            last_500_time: self.last_500_time,
            disabled_until: self.disabled_until,
            disabled_reason: opt_view(self.disabled_reason),
        }
    }
}

/// The names of the windows whose call count is above a non-zero limit.
pub open spec fn exceeded_names(t: TrackerView, l: UsageLimits) -> Seq<Seq<char>> {
    (if l.max_per_5hrs > 0 && (t.five_hour.len() as u32) > l.max_per_5hrs { seq!["5hour"@] } else { Seq::empty() })
    + (if l.max_per_day > 0 && (t.day.len() as u32) > l.max_per_day { seq!["day"@] } else { Seq::empty() })
    + (if l.max_per_month > 0 && (t.month.len() as u32) > l.max_per_month { seq!["month"@] } else { Seq::empty() })
}

/// Whether any window of `t` is above its limit under the given models.
pub open spec fn any_exceeded(t: TrackerView, models: Seq<Model>) -> bool {
    exceeded_names(t, limits_of(models, t.model_id, t.platform_id)).len() > 0
}

/// Whether the tracker is in a 5xx back-off at `now`.
pub open spec fn backing_off(t: TrackerView, now: int) -> bool {
    match t.disabled_until {
        Some(until) => now < until,
        None => false,
    }
}

/// Whether the tracker may serve a request at `now`.
pub open spec fn available_at(t: TrackerView, now: int, models: Seq<Model>) -> bool {
    !backing_off(t, now) && !any_exceeded(t, models)
}

/// The tracker after a successful call at `now`.
pub open spec fn after_call(t: TrackerView, now: int) -> TrackerView {
    TrackerView {
        five_hour: expire(t.five_hour, now - FIVE_HOURS_SECS).push(now as i64),
        day: expire(t.day, now - DAY_SECS).push(now as i64),
        month: expire(t.month, now - MONTH_SECS).push(now as i64),
        ..t
    }
}

/// The tracker with every window cleaned at `now`.
pub open spec fn cleaned(t: TrackerView, now: int) -> TrackerView {
    TrackerView {
        five_hour: expire(t.five_hour, now - FIVE_HOURS_SECS),
        day: expire(t.day, now - DAY_SECS),
        month: expire(t.month, now - MONTH_SECS),
        ..t
    }
}

/// The back-off after the `n`-th consecutive server error: 5 s per error, at most 60 s.
pub open spec fn backoff_secs(n: int) -> int {
    if 5 * n < 60 { 5 * n } else { 60 }
}

/// The reason recorded for a server-error back-off.
pub open spec fn server_error_reason(n: nat, backoff: nat) -> Seq<char> {
    "Server error (500 x"@ + decimal(n) + ") - retry after "@ + decimal(backoff) + "s"@
}

/// The tracker after a server error at `now`.
pub open spec fn after_500(t: TrackerView, now: int) -> TrackerView {
    let n = t.consecutive_500 + 1;
    TrackerView {
        consecutive_500: n as u32,
        last_500_time: now as i64,
        disabled_until: Some((now + backoff_secs(n)) as i64),
        disabled_reason: Some(server_error_reason(n as nat, backoff_secs(n) as nat)),
        ..t
    }
}

/// The tracker after a rate-limit answer at `now`: counted, never disabled.
pub open spec fn after_429(t: TrackerView, now: int) -> TrackerView {
    TrackerView { consecutive_429: (t.consecutive_429 + 1) as u32, last_429_time: now as i64, ..t }
}

/// The tracker after a success: error streaks reset.
pub open spec fn after_success(t: TrackerView) -> TrackerView {
    TrackerView { consecutive_429: 0, consecutive_500: 0, ..t }
}

/// Whether the rate-limit counter of `t` can count one more answer without overflowing.
pub open spec fn can_count_429(t: TrackerView) -> bool {
    t.consecutive_429 < u32::MAX
}

/// Whether the server-error counter of `t`, and its back-off of 5 s per error,
/// can count one more error without overflowing.
pub open spec fn can_count_500(t: TrackerView) -> bool {
    5 * (t.consecutive_500 + 1) <= u32::MAX
}

fn string_of_chars(v: Vec<char>) -> (r: String)
    ensures
        r@ == v@,
{
    string_from_chars(&v)
}

impl ModelKeyTracker {
    /// A fresh tracker with empty windows and no error streak.
    pub fn new(key_id: String, model_id: String, platform_id: String) -> (r: Self)
        ensures
            r@ == (TrackerView {
                key_id: key_id@,
                model_id: model_id@,
                platform_id: platform_id@,
                five_hour: Seq::empty(),
                day: Seq::empty(),
                month: Seq::empty(),
                consecutive_429: 0,
                consecutive_500: 0,
                last_429_time: 0,
                last_500_time: 0,
                disabled_until: None,
                disabled_reason: None,
            }),
    {
        ModelKeyTracker {
            key_id,
            model_id,
            platform_id,
            five_hour: UsageWindow::new(),
            day: UsageWindow::new(),
            month: UsageWindow::new(),
            consecutive_429: 0,
            consecutive_500: 0,
            last_429_time: 0,
            last_500_time: 0,
            disabled_until: None,
            disabled_reason: None,
        }
    }

    /// The limits of this tracker's model among its platform's `models` in
    /// sort order (no limits when the model is gone).
    pub fn get_limits(&self, models: &Vec<Model>) -> (r: UsageLimits)
        ensures
            r == limits_of(models@, self@.model_id, self@.platform_id),
    {
        let ms = crate::model_manager::models_of_platform(models, self.platform_id.as_str());
        match find_model(&ms, &self.model_id, &self.platform_id) {
            Some(i) => UsageLimits {
                max_per_5hrs: ms[i].per_5hour,
                max_per_day: ms[i].per_day,
                max_per_month: ms[i].per_month,
            },
            None => UsageLimits { max_per_5hrs: u32::MAX, max_per_day: u32::MAX, max_per_month: u32::MAX },
        }
    }

    /// Records a successful call at `now` in all three windows.
    pub fn record_call_at(&mut self, now: i64)
        requires
            clock_range(now as int),
        ensures
            final(self)@ == after_call(old(self)@, now as int),
    {
        self.five_hour.record(now, FIVE_HOURS_SECS);
        self.day.record(now, DAY_SECS);
        self.month.record(now, MONTH_SECS);
    }

    /// Records a successful call now.
    pub fn record_call(&mut self)
        ensures
            exists|now: int| clock_range(now) && final(self)@ == after_call(old(self)@, now),
    {
        let now = clock::now_unix_seconds();
        self.record_call_at(now);
    }

    /// Cleans all three windows at `now`.
    pub fn clean_all_windows_at(&mut self, now: i64)
        requires
            clock_range(now as int),
        ensures
            final(self)@ == cleaned(old(self)@, now as int),
    {
        self.five_hour.clean_expired(now, FIVE_HOURS_SECS);
        self.day.clean_expired(now, DAY_SECS);
        self.month.clean_expired(now, MONTH_SECS);
    }

    /// Cleans all three windows now.
    pub fn clean_all_windows(&mut self)
        ensures
            exists|now: int| clock_range(now) && final(self)@ == cleaned(old(self)@, now),
    {
        let now = clock::now_unix_seconds();
        self.clean_all_windows_at(now);
    }

    /// The names of the windows above their limit ("5hour", "day", "month", in
    /// that order). Stale entries are counted until the next cleaning.
    pub fn get_exceeded_windows(&self, models: &Vec<Model>) -> (r: Vec<String>)
        ensures
            r@.map_values(|s: String| s@) == exceeded_names(self@, limits_of(models@, self@.model_id, self@.platform_id)),
    {
        let limits = self.get_limits(models);
        let mut exceeded: Vec<String> = Vec::new();
        if limits.max_per_5hrs > 0 && self.five_hour.len() > limits.max_per_5hrs {
            exceeded.push(owned("5hour"));
        }
        if limits.max_per_day > 0 && self.day.len() > limits.max_per_day {
            exceeded.push(owned("day"));
        }
        if limits.max_per_month > 0 && self.month.len() > limits.max_per_month {
            exceeded.push(owned("month"));
        }
        assert(exceeded@.map_values(|s: String| s@) =~= exceeded_names(self@, limits));
        exceeded
    }

    /// Whether any window is above its limit.
    pub fn is_any_window_exceeded(&self, models: &Vec<Model>) -> (r: bool)
        ensures
            r == any_exceeded(self@, models@),
    {
        let w = self.get_exceeded_windows(models);
        assert(w@.map_values(|s: String| s@).len() == w@.len());
        w.len() > 0
    }

    /// Records a rate-limit answer at `now`. The key stays available: the
    /// proxy waits and retries it.
    pub fn record_429_at(&mut self, now: i64)
        requires
            old(self)@.consecutive_429 < u32::MAX,
        ensures
            final(self)@ == after_429(old(self)@, now as int),
    {
        self.consecutive_429 = self.consecutive_429 + 1;
        self.last_429_time = now;
    }

    /// Records a rate-limit answer now.
    pub fn record_429(&mut self)
        requires
            old(self)@.consecutive_429 < u32::MAX,
        ensures
            exists|now: int| clock_range(now) && final(self)@ == after_429(old(self)@, now),
    {
        let now = clock::now_unix_seconds();
        self.record_429_at(now);
    }

    /// Records a server error at `now`: the tracker backs off for 5 s per
    /// consecutive error, at most 60 s.
    pub fn record_500_at(&mut self, now: i64)
        requires
            clock_range(now as int),
            can_count_500(old(self)@),
        ensures
            final(self)@ == after_500(old(self)@, now as int),
    {
        self.consecutive_500 = self.consecutive_500 + 1;
        self.last_500_time = now;
        let n = self.consecutive_500;
        let backoff: i64 = if 5 * n < 60 { (5 * n) as i64 } else { 60 };
        self.disabled_until = Some(now + backoff);
        let mut reason: Vec<char> = Vec::new();
        push_str(&mut reason, "Server error (500 x");
        push_decimal(&mut reason, n as u64);
        push_str(&mut reason, ") - retry after ");
        push_decimal(&mut reason, backoff as u64);
        push_str(&mut reason, "s");
        self.disabled_reason = Some(string_of_chars(reason));
    }

    /// Records a server error now.
    pub fn record_500(&mut self)
        requires
            can_count_500(old(self)@),
        ensures
            exists|now: int| clock_range(now) && final(self)@ == after_500(old(self)@, now),
    {
        let now = clock::now_unix_seconds();
        self.record_500_at(now);
    }

    /// Whether the tracker may serve a request at `now`.
    pub fn is_available_at(&self, now: i64, models: &Vec<Model>) -> (r: bool)
        ensures
            r == available_at(self@, now as int, models@),
    {
        if let Some(until) = self.disabled_until {
            if now < until {
                return false;
            }
        }
        !self.is_any_window_exceeded(models)
    }

    /// Whether the tracker may serve a request now.
    pub fn is_available(&self, models: &Vec<Model>) -> (r: bool)
        ensures
            r ==> !any_exceeded(self@, models@),
            any_exceeded(self@, models@) ==> !r,
            (self@.disabled_until is None && !any_exceeded(self@, models@)) ==> r,
            exists|now: int| clock_range(now) && r == available_at(self@, now, models@),
    {
        let now = clock::now_unix_seconds();
        self.is_available_at(now, models)
    }

    /// Resets the error streaks after a success.
    pub fn record_success(&mut self)
        ensures
            final(self)@ == after_success(old(self)@),
    {
        self.consecutive_429 = 0;
        self.consecutive_500 = 0;
    }
}

// ── Global state ──

/// The data of the quota state.
#[verifier::ext_equal]
pub struct QuotaView {
    pub trackers: Seq<TrackerView>,
    pub auto_switch_enabled: bool,
}

/// The views of a list of trackers.
pub open spec fn views(ts: Seq<ModelKeyTracker>) -> Seq<TrackerView> {
    ts.map_values(|t: ModelKeyTracker| t@)
}

/// Quota state of all (model, key) pairs.
#[derive(Debug, Clone)]
pub struct QuotaWindowState {
    pub trackers: Vec<ModelKeyTracker>,
    pub auto_switch_enabled: bool,
}

impl View for QuotaWindowState {
    type V = QuotaView;

    open spec fn view(&self) -> QuotaView {
        QuotaView { trackers: views(self.trackers@), auto_switch_enabled: self.auto_switch_enabled }
    }
}

impl Default for QuotaWindowState {
    /// No tracker, automatic switching on.
    fn default() -> (r: Self)
        ensures
            r@ == (QuotaView { trackers: Seq::empty(), auto_switch_enabled: true }),
    {
        let r = QuotaWindowState { trackers: Vec::new(), auto_switch_enabled: true };
        proof {
            assert(r@.trackers =~= Seq::<TrackerView>::empty());
        }
        r
    }
}

/// Index of the first tracker of (`key_id`, `model_id`).
pub open spec fn tracker_index(ts: Seq<TrackerView>, key_id: Seq<char>, model_id: Seq<char>) -> Option<int>
    decreases ts.len(),
{
    if ts.len() == 0 {
        None
    } else {
        match tracker_index(ts.drop_last(), key_id, model_id) {
            Some(i) => Some(i),
            None => if ts.last().key_id == key_id && ts.last().model_id == model_id {
                Some(ts.len() - 1)
            } else {
                None
            },
        }
    }
}

/// A fresh tracker view.
pub open spec fn fresh(key_id: Seq<char>, model_id: Seq<char>, platform_id: Seq<char>) -> TrackerView {
    TrackerView {
        key_id,
        model_id,
        platform_id,
        five_hour: Seq::empty(),
        day: Seq::empty(),
        month: Seq::empty(),
        consecutive_429: 0,
        consecutive_500: 0,
        last_429_time: 0,
        last_500_time: 0,
        disabled_until: None,
        disabled_reason: None,
    }
}

/// The trackers after making sure (`key_id`, `model_id`) has one.
pub open spec fn ensured(ts: Seq<TrackerView>, key_id: Seq<char>, model_id: Seq<char>, platform_id: Seq<char>) -> Seq<TrackerView> {
    if tracker_index(ts, key_id, model_id) is Some {
        ts
    } else {
        ts.push(fresh(key_id, model_id, platform_id))
    }
}

/// Index of the tracker of (`key_id`, `model_id`) once it is ensured.
pub open spec fn ensured_index(ts: Seq<TrackerView>, key_id: Seq<char>, model_id: Seq<char>) -> int {
    match tracker_index(ts, key_id, model_id) {
        Some(i) => i,
        None => ts.len() as int,
    }
}

/// Applies `f` to the tracker of (`key_id`, `model_id`), creating it first if needed.
pub open spec fn update_pair(
    ts: Seq<TrackerView>,
    key_id: Seq<char>,
    model_id: Seq<char>,
    platform_id: Seq<char>,
    f: spec_fn(TrackerView) -> TrackerView,
) -> Seq<TrackerView> {
    let e = ensured(ts, key_id, model_id, platform_id);
    let i = ensured_index(ts, key_id, model_id);
    e.update(i, f(e[i]))
}

/// Whether every tracker of (`key_id`, `model_id`) can count one more rate-limit answer.
pub open spec fn pair_429_ok(ts: Seq<TrackerView>, key_id: Seq<char>, model_id: Seq<char>) -> bool {
    forall|i: int| 0 <= i < ts.len() && ts[i].key_id == key_id && ts[i].model_id == model_id ==> can_count_429(#[trigger] ts[i])
}

/// Whether every tracker of (`key_id`, `model_id`) can count one more server error.
pub open spec fn pair_500_ok(ts: Seq<TrackerView>, key_id: Seq<char>, model_id: Seq<char>) -> bool {
    forall|i: int| 0 <= i < ts.len() && ts[i].key_id == key_id && ts[i].model_id == model_id ==> can_count_500(#[trigger] ts[i])
}

/// Usage of a tracker: the calls held in its three windows.
pub open spec fn usage_total(t: TrackerView) -> int {
    (t.five_hour.len() as u32) + (t.day.len() as u32) + (t.month.len() as u32)
}

/// Whether every tracker's usage total fits in 32 bits.
pub open spec fn usage_fits(ts: Seq<TrackerView>) -> bool {
    forall|i: int| 0 <= i < ts.len() ==> usage_total(#[trigger] ts[i]) <= u32::MAX
}

/// The first available tracker of `model_id` with the least usage.
pub open spec fn best_index(ts: Seq<TrackerView>, model_id: Seq<char>, now: int, models: Seq<Model>) -> Option<int>
    decreases ts.len(),
{
    if ts.len() == 0 {
        None
    } else {
        let prev = best_index(ts.drop_last(), model_id, now, models);
        let t = ts.last();
        if t.model_id == model_id && available_at(t, now, models) && (match prev {
            None => true,
            Some(b) => usage_total(t) < usage_total(ts[b]),
        }) {
            Some(ts.len() - 1)
        } else {
            prev
        }
    }
}

proof fn lemma_best_index_bound(ts: Seq<TrackerView>, model_id: Seq<char>, now: int, models: Seq<Model>)
    ensures
        best_index(ts, model_id, now, models) matches Some(b) ==> 0 <= b < ts.len(),
    decreases ts.len(),
{
    if ts.len() > 0 {
        lemma_best_index_bound(ts.drop_last(), model_id, now, models);
    }
}

/// The trackers that do not satisfy `f`, in order.
pub open spec fn drop_where(ts: Seq<TrackerView>, f: spec_fn(TrackerView) -> bool) -> Seq<TrackerView>
    decreases ts.len(),
{
    if ts.len() == 0 {
        Seq::empty()
    } else if f(ts.last()) {
        drop_where(ts.drop_last(), f)
    } else {
        drop_where(ts.drop_last(), f).push(ts.last())
    }
}

/// Replacing one tracker replaces its view.
pub broadcast proof fn lemma_views_update(ts: Seq<ModelKeyTracker>, i: int, t: ModelKeyTracker)
    requires
        0 <= i < ts.len(),
    ensures
        #[trigger] views(ts.update(i, t)) == views(ts).update(i, t@),
{
    assert(views(ts.update(i, t)) =~= views(ts).update(i, t@));
}

/// Whether a tracker matches every given field.
pub open spec fn matches_filter(t: TrackerView, key_id: Option<Seq<char>>, model_id: Option<Seq<char>>, platform_id: Option<Seq<char>>) -> bool {
    (match key_id { Some(k) => t.key_id == k, None => true })
    && (match model_id { Some(m) => t.model_id == m, None => true })
    && (match platform_id { Some(p) => t.platform_id == p, None => true })
}

fn field_matches(field: &String, want: &Option<String>) -> (r: bool)
    ensures
        r == match opt_view(*want) { Some(w) => field@ == w, None => true },
{
    match want {
        Some(w) => *field == *w,
        None => true,
    }
}

fn matches_filter_exec(t: &ModelKeyTracker, key_id: &Option<String>, model_id: &Option<String>, platform_id: &Option<String>) -> (r: bool)
    ensures
        r == matches_filter(t@, opt_view(*key_id), opt_view(*model_id), opt_view(*platform_id)),
{
    field_matches(&t.key_id, key_id) && field_matches(&t.model_id, model_id) && field_matches(&t.platform_id, platform_id)
}

/// Dropping by two predicates that agree gives the same result.
proof fn lemma_drop_where_ext(ts: Seq<TrackerView>, f: spec_fn(TrackerView) -> bool, g: spec_fn(TrackerView) -> bool)
    requires
        forall|t: TrackerView| #[trigger] f(t) == g(t),
    ensures
        drop_where(ts, f) == drop_where(ts, g),
    decreases ts.len(),
{
    if ts.len() > 0 {
        lemma_drop_where_ext(ts.drop_last(), f, g);
    }
}

proof fn lemma_views_push(ts: Seq<ModelKeyTracker>, t: ModelKeyTracker)
    ensures
        views(ts.push(t)) == views(ts).push(t@),
{
    assert(views(ts.push(t)) =~= views(ts).push(t@));
}

proof fn lemma_tracker_index(ts: Seq<TrackerView>, key_id: Seq<char>, model_id: Seq<char>, n: int)
    requires
        0 <= n <= ts.len(),
    ensures
        tracker_index(ts.take(n), key_id, model_id) matches Some(i) ==>
            tracker_index(ts, key_id, model_id) == Some(i) && 0 <= i < n,
        (tracker_index(ts.take(n), key_id, model_id) is None && n < ts.len()) ==> (
            if ts[n].key_id == key_id && ts[n].model_id == model_id {
                tracker_index(ts.take(n + 1), key_id, model_id) == Some(n)
            } else {
                tracker_index(ts.take(n + 1), key_id, model_id) is None
            }),
        n == ts.len() ==> tracker_index(ts.take(n), key_id, model_id) == tracker_index(ts, key_id, model_id),
    decreases ts.len() - n,
{
    if n < ts.len() {
        assert(ts.take(n + 1).drop_last() =~= ts.take(n));
        lemma_tracker_index(ts, key_id, model_id, n + 1);
        lemma_tracker_index_bound(ts.take(n), key_id, model_id);
    } else {
        assert(ts.take(n) =~= ts);
        lemma_tracker_index_bound(ts, key_id, model_id);
    }
}

proof fn lemma_tracker_index_bound(ts: Seq<TrackerView>, key_id: Seq<char>, model_id: Seq<char>)
    ensures
        tracker_index(ts, key_id, model_id) matches Some(i) ==> 0 <= i < ts.len()
            && ts[i].key_id == key_id && ts[i].model_id == model_id,
    decreases ts.len(),
{
    if ts.len() > 0 {
        lemma_tracker_index_bound(ts.drop_last(), key_id, model_id);
    }
}

impl QuotaWindowState {
    /// The first tracker of (`key_id`, `model_id`).
    fn find_tracker(&self, key_id: &String, model_id: &String) -> (r: Option<usize>)
        ensures
            r matches Some(i) ==> tracker_index(self@.trackers, key_id@, model_id@) == Some(i as int)
                && i < self.trackers@.len(),
            r is None ==> tracker_index(self@.trackers, key_id@, model_id@) is None,
    {
        let ghost ts = self@.trackers;
        let mut i: usize = 0;
        while i < self.trackers.len()
            invariant
                i <= self.trackers.len(),
                ts == self@.trackers,
                tracker_index(ts.take(i as int), key_id@, model_id@) is None,
            decreases self.trackers.len() - i,
        {
            proof {
                lemma_tracker_index(ts, key_id@, model_id@, i as int);
                assert(ts[i as int] == self.trackers@[i as int]@);
            }
            if self.trackers[i].key_id == *key_id && self.trackers[i].model_id == *model_id {
                proof {
                    lemma_tracker_index(ts, key_id@, model_id@, i + 1);
                }
                return Some(i);
            }
            i += 1;
        }
        proof {
            lemma_tracker_index(ts, key_id@, model_id@, i as int);
        }
        None
    }

    /// The tracker of (`key_id`, `model_id`), for in-place updates.
    pub fn get_tracker_mut(&mut self, key_id: &str, model_id: &str) -> (r: Option<&mut ModelKeyTracker>)
        ensures
            match tracker_index(old(self)@.trackers, key_id@, model_id@) {
                None => r is None && final(self)@ == old(self)@,
                Some(i) => r matches Some(t) && (*t)@ == old(self)@.trackers[i]
                    && final(self)@ == (QuotaView {
                        trackers: old(self)@.trackers.update(i, (*final(t))@),
                        auto_switch_enabled: old(self)@.auto_switch_enabled,
                    }),
            },
    {
        broadcast use lemma_views_update;
        let k = owned(key_id);
        let m = owned(model_id);
        match self.find_tracker(&k, &m) {
            Some(i) => {
                let t = &mut self.trackers[i];
                Some(t)
            },
            None => None,
        }
    }

    /// The tracker of (`key_id`, `model_id`), created with empty windows when missing.
    pub fn ensure_tracker(&mut self, key_id: &str, model_id: &str, platform_id: &str) -> (r: &mut ModelKeyTracker)
        ensures
            (*r)@ == ensured(old(self)@.trackers, key_id@, model_id@, platform_id@)[ensured_index(old(self)@.trackers, key_id@, model_id@)],
            final(self)@ == (QuotaView {
                trackers: ensured(old(self)@.trackers, key_id@, model_id@, platform_id@).update(
                    ensured_index(old(self)@.trackers, key_id@, model_id@), (*final(r))@),
                auto_switch_enabled: old(self)@.auto_switch_enabled,
            }),
    {
        broadcast use lemma_views_update;
        let k = owned(key_id);
        let m = owned(model_id);
        let i = match self.find_tracker(&k, &m) {
            Some(i) => i,
            None => {
                let ghost before = self.trackers@;
                let t = ModelKeyTracker::new(k, m, owned(platform_id));
                self.trackers.push(t);
                proof {
                    lemma_views_push(before, t);
                }
                self.trackers.len() - 1
            },
        };
        &mut self.trackers[i]
    }

    /// Removes every tracker for which `f` holds.
    fn remove_where(&mut self, key_id: &Option<String>, model_id: &Option<String>, platform_id: &Option<String>)
        ensures
            final(self)@ == (QuotaView {
                trackers: drop_where(old(self)@.trackers, |t: TrackerView| matches_filter(t, opt_view(*key_id), opt_view(*model_id), opt_view(*platform_id))),
                auto_switch_enabled: old(self)@.auto_switch_enabled,
            }),
    {
        let ghost f = |t: TrackerView| matches_filter(t, opt_view(*key_id), opt_view(*model_id), opt_view(*platform_id));
        let ghost orig = self.trackers@;
        let mut rest: Vec<ModelKeyTracker> = Vec::new();
        std::mem::swap(&mut rest, &mut self.trackers);
        let mut kept: Vec<ModelKeyTracker> = Vec::new();
        let n = rest.len();
        let mut i: usize = 0;
        while i < n
            invariant
                n == orig.len(),
                i <= n,
                rest@ == orig.skip(i as int),
                f == (|t: TrackerView| matches_filter(t, opt_view(*key_id), opt_view(*model_id), opt_view(*platform_id))),
                views(kept@) == drop_where(views(orig.take(i as int)), f),
            decreases n - i,
        {
            let t = rest.remove(0);
            proof {
                assert(orig.skip(i as int)[0] == orig[i as int]);
                assert(orig.skip(i as int).subrange(1, orig.skip(i as int).len() as int) =~= orig.skip(i + 1));
                assert(orig.take(i + 1).drop_last() =~= orig.take(i as int));
                assert(views(orig.take(i + 1)).drop_last() =~= views(orig.take(i as int)));
                assert(views(orig.take(i + 1)).last() == t@);
            }
            let hit = matches_filter_exec(&t, key_id, model_id, platform_id);
            proof {
                let sv = views(orig.take(i + 1));
                assert(f(t@) == hit);
                assert(sv.len() > 0);
                assert(drop_where(sv, f) == if f(sv.last()) {
                    drop_where(sv.drop_last(), f)
                } else {
                    drop_where(sv.drop_last(), f).push(sv.last())
                });
            }
            if !hit {
                let ghost kb = kept@;
                kept.push(t);
                proof {
                    lemma_views_push(kb, t);
                }
            }
            i += 1;
        }
        proof {
            assert(orig.take(n as int) =~= orig);
        }
        self.trackers = kept;
    }

    /// Removes the tracker(s) of (`key_id`, `model_id`).
    pub fn remove_tracker(&mut self, key_id: &str, model_id: &str)
        ensures
            final(self)@ == (QuotaView {
                trackers: drop_where(old(self)@.trackers, |t: TrackerView| t.key_id == key_id@ && t.model_id == model_id@),
                auto_switch_enabled: old(self)@.auto_switch_enabled,
            }),
    {
        let k = Some(owned(key_id));
        let m = Some(owned(model_id));
        self.remove_where(&k, &m, &None);
        proof {
            lemma_drop_where_ext(old(self)@.trackers,
                |t: TrackerView| matches_filter(t, opt_view(k), opt_view(m), opt_view(None::<String>)),
                |t: TrackerView| t.key_id == key_id@ && t.model_id == model_id@);
        }
    }

    /// Removes every tracker of the key.
    pub fn remove_key_trackers(&mut self, key_id: &str)
        ensures
            final(self)@ == (QuotaView {
                trackers: drop_where(old(self)@.trackers, |t: TrackerView| t.key_id == key_id@),
                auto_switch_enabled: old(self)@.auto_switch_enabled,
            }),
    {
        let k = Some(owned(key_id));
        self.remove_where(&k, &None, &None);
        proof {
            lemma_drop_where_ext(old(self)@.trackers,
                |t: TrackerView| matches_filter(t, opt_view(k), opt_view(None::<String>), opt_view(None::<String>)),
                |t: TrackerView| t.key_id == key_id@);
        }
    }

    /// Removes every tracker of the model.
    pub fn remove_model_trackers(&mut self, model_id: &str)
        ensures
            final(self)@ == (QuotaView {
                trackers: drop_where(old(self)@.trackers, |t: TrackerView| t.model_id == model_id@),
                auto_switch_enabled: old(self)@.auto_switch_enabled,
            }),
    {
        let m = Some(owned(model_id));
        self.remove_where(&None, &m, &None);
        proof {
            lemma_drop_where_ext(old(self)@.trackers,
                |t: TrackerView| matches_filter(t, opt_view(None::<String>), opt_view(m), opt_view(None::<String>)),
                |t: TrackerView| t.model_id == model_id@);
        }
    }

    /// Removes every tracker of the platform.
    pub fn remove_platform_trackers(&mut self, platform_id: &str)
        ensures
            final(self)@ == (QuotaView {
                trackers: drop_where(old(self)@.trackers, |t: TrackerView| t.platform_id == platform_id@),
                auto_switch_enabled: old(self)@.auto_switch_enabled,
            }),
    {
        let p = Some(owned(platform_id));
        self.remove_where(&None, &None, &p);
        proof {
            lemma_drop_where_ext(old(self)@.trackers,
                |t: TrackerView| matches_filter(t, opt_view(None::<String>), opt_view(None::<String>), opt_view(p)),
                |t: TrackerView| t.platform_id == platform_id@);
        }
    }


    /// The first available tracker of `model_id` at `now` with the least usage
    /// (fewest calls held in its three windows).
    pub fn get_best_available_key_for_model_at(&self, model_id: &str, now: i64, models: &Vec<Model>) -> (r: Option<&ModelKeyTracker>)
        requires
            usage_fits(self@.trackers),
        ensures
            match best_index(self@.trackers, model_id@, now as int, models@) {
                None => r is None,
                Some(i) => r matches Some(t) && 0 <= i < self.trackers@.len() && *t == self.trackers@[i],
            },
    {
        let ghost ts = self@.trackers;
        let m = owned(model_id);
        let mut best: Option<usize> = None;
        let mut best_usage: u64 = 0;
        let mut i: usize = 0;
        while i < self.trackers.len()
            invariant
                i <= self.trackers.len(),
                ts == self@.trackers,
                usage_fits(ts),
                match best_index(ts.take(i as int), m@, now as int, models@) {
                    None => best is None,
                    Some(b) => best == Some(b as usize),
                },
                best matches Some(b) ==> b < i && best_usage == usage_total(ts[b as int]),
            decreases self.trackers.len() - i,
        {
            proof {
                assert(ts.take(i + 1).drop_last() =~= ts.take(i as int));
                assert(ts.take(i + 1).last() == ts[i as int]);
                assert(ts[i as int] == self.trackers@[i as int]@);
                if let Some(b) = best {
                    assert(ts.take(i + 1)[b as int] == ts[b as int]);
                }
                lemma_best_index_bound(ts.take(i as int), m@, now as int, models@);
            }
            let t = &self.trackers[i];
            if t.model_id == m && t.is_available_at(now, models) {
                let u = t.five_hour.len() as u64 + t.day.len() as u64 + t.month.len() as u64;
                let better = match best {
                    None => true,
                    Some(_) => u < best_usage,
                };
                if better {
                    best = Some(i);
                    best_usage = u;
                }
            }
            i += 1;
        }
        proof {
            assert(ts.take(i as int) =~= ts);
            lemma_best_index_bound(ts, m@, now as int, models@);
        }
        match best {
            Some(b) => Some(&self.trackers[b]),
            None => None,
        }
    }

    /// The first available tracker of `model_id` now with the least usage.
    pub fn get_best_available_key_for_model(&self, model_id: &str, models: &Vec<Model>) -> (r: Option<&ModelKeyTracker>)
        requires
            usage_fits(self@.trackers),
        ensures
            exists|now: int| clock_range(now) && match best_index(self@.trackers, model_id@, now, models@) {
                None => r is None,
                Some(i) => r matches Some(t) && 0 <= i < self.trackers@.len() && *t == self.trackers@[i],
            },
    {
        let now = clock::now_unix_seconds();
        self.get_best_available_key_for_model_at(model_id, now, models)
    }
}

// ── Shared store: state plus the save-debounce flags ──

/// Minimum seconds between two saves of the quota state.
pub const SAVE_DEBOUNCE_SECS: i64 = 30;

/// The quota state together with the flags that debounce saving it.
#[derive(Debug, Clone)]
pub struct QuotaStore {
    pub state: QuotaWindowState,
    /// The state changed since the last save.
    pub dirty: bool,
    /// When the state was last saved (Unix seconds).
    pub last_save_ts: i64,
}

/// The keys of the candidates, as character sequences.
pub open spec fn key_views(cands: Seq<String>) -> Seq<Seq<char>> {
    cands.map_values(|k: String| k@)
}

/// Whether some candidate's first tracker for `model_id` is the tracker at `i`.
pub open spec fn hit_by(ts: Seq<TrackerView>, cands: Seq<Seq<char>>, model_id: Seq<char>, i: int) -> bool {
    exists|j: int| 0 <= j < cands.len() && tracker_index(ts, #[trigger] cands[j], model_id) == Some(i)
}

/// The trackers after cleaning, at `now`, those that the candidates hit.
pub open spec fn cleaned_where(ts: Seq<TrackerView>, cands: Seq<Seq<char>>, model_id: Seq<char>, now: int) -> Seq<TrackerView> {
    Seq::new(ts.len(), |i: int| if hit_by(ts, cands, model_id, i) { cleaned(ts[i], now) } else { ts[i] })
}

/// Whether the key may serve `model_id` at `now`: it has no tracker yet, or its
/// tracker, once cleaned, is available.
pub open spec fn key_passes(ts: Seq<TrackerView>, key_id: Seq<char>, model_id: Seq<char>, now: int, models: Seq<Model>) -> bool {
    match tracker_index(ts, key_id, model_id) {
        None => true,
        Some(i) => available_at(cleaned(ts[i], now), now, models),
    }
}

/// The candidates that pass, in order.
pub open spec fn passing(cands: Seq<Seq<char>>, ts: Seq<TrackerView>, model_id: Seq<char>, now: int, models: Seq<Model>) -> Seq<Seq<char>>
    decreases cands.len(),
{
    if cands.len() == 0 {
        Seq::empty()
    } else if key_passes(ts, cands.last(), model_id, now, models) {
        passing(cands.drop_last(), ts, model_id, now, models).push(cands.last())
    } else {
        passing(cands.drop_last(), ts, model_id, now, models)
    }
}

/// The trackers with every back-off that ran out by `now` lifted.
pub open spec fn reenabled(t: TrackerView, now: int) -> TrackerView {
    match t.disabled_until {
        Some(until) => if now >= until {
            TrackerView { disabled_until: None, disabled_reason: None, ..t }
        } else {
            t
        },
        None => t,
    }
}

/// Whether the back-off of `t` has run out by `now`.
pub open spec fn backoff_over(t: TrackerView, now: int) -> bool {
    match t.disabled_until {
        Some(until) => now >= until,
        None => false,
    }
}

/// The keys of the trackers whose back-off ran out by `now`, in order.
pub open spec fn reenabled_keys(ts: Seq<TrackerView>, now: int) -> Seq<Seq<char>>
    decreases ts.len(),
{
    if ts.len() == 0 {
        Seq::empty()
    } else if backoff_over(ts.last(), now) {
        reenabled_keys(ts.drop_last(), now).push(ts.last().key_id)
    } else {
        reenabled_keys(ts.drop_last(), now)
    }
}

/// Trackers that agree on keys and models have the same first index.
proof fn lemma_tracker_index_same_keys(a: Seq<TrackerView>, b: Seq<TrackerView>, key_id: Seq<char>, model_id: Seq<char>)
    requires
        a.len() == b.len(),
        forall|i: int| 0 <= i < a.len() ==> (#[trigger] a[i]).key_id == b[i].key_id && a[i].model_id == b[i].model_id,
    ensures
        tracker_index(a, key_id, model_id) == tracker_index(b, key_id, model_id),
    decreases a.len(),
{
    if a.len() > 0 {
        assert forall|i: int| 0 <= i < a.len() - 1 implies (#[trigger] a.drop_last()[i]).key_id == b.drop_last()[i].key_id
            && a.drop_last()[i].model_id == b.drop_last()[i].model_id by {
            assert(a[i].key_id == b[i].key_id);
        }
        lemma_tracker_index_same_keys(a.drop_last(), b.drop_last(), key_id, model_id);
        assert(a[a.len() - 1].key_id == b[a.len() - 1].key_id);
    }
}

/// Cleaning twice at the same time is cleaning once.
pub proof fn lemma_cleaned_idempotent(t: TrackerView, now: int)
    ensures
        cleaned(cleaned(t, now), now) == cleaned(t, now),
{
    lemma_expire_idempotent(t.five_hour, now - FIVE_HOURS_SECS);
    lemma_expire_idempotent(t.day, now - DAY_SECS);
    lemma_expire_idempotent(t.month, now - MONTH_SECS);
}

impl QuotaStore {
    /// A store holding `state`, not dirty and never saved.
    pub fn new(state: QuotaWindowState) -> (r: Self)
        ensures
            r.state@ == state@,
            !r.dirty,
            r.last_save_ts == 0,
    {
        QuotaStore { state, dirty: false, last_save_ts: 0 }
    }

    /// Notes that the state changed since the last save.
    pub fn mark_dirty(&mut self)
        ensures
            final(self).dirty,
            final(self).state@ == old(self).state@,
            final(self).last_save_ts == old(self).last_save_ts,
    {
        self.dirty = true;
    }

    /// Whether the state should be saved at `now`: it changed and the last save
    /// is at least 30 seconds old.
    pub fn should_flush(&self, now: i64) -> (r: bool)
        ensures
            r == (self.dirty && now - self.last_save_ts >= SAVE_DEBOUNCE_SECS),
    {
        self.dirty && (now as i128) - (self.last_save_ts as i128) >= SAVE_DEBOUNCE_SECS as i128
    }

    /// Notes a successful save at `now`.
    pub fn clear_dirty(&mut self, now: i64)
        ensures
            !final(self).dirty,
            final(self).last_save_ts == now,
            final(self).state@ == old(self).state@,
    {
        self.dirty = false;
        self.last_save_ts = now;
    }
}

/// Records a successful call of `key_id` on `model_id` at `now`: the call is
/// counted in all three windows and the error streaks are reset.
pub fn record_api_call_at(store: &mut QuotaStore, key_id: &str, model_id: &str, platform_id: &str, now: i64)
    requires
        clock_range(now as int),
    ensures
        final(store).state@ == (QuotaView {
            trackers: update_pair(old(store).state@.trackers, key_id@, model_id@, platform_id@,
                |t: TrackerView| after_success(after_call(t, now as int))),
            auto_switch_enabled: old(store).state@.auto_switch_enabled,
        }),
        final(store).dirty,
        final(store).last_save_ts == old(store).last_save_ts,
{
    let t = store.state.ensure_tracker(key_id, model_id, platform_id);
    t.record_call_at(now);
    t.record_success();
    store.dirty = true;
}

/// Records a successful call of `key_id` on `model_id` now.
pub fn record_api_call(store: &mut QuotaStore, key_id: &str, model_id: &str, platform_id: &str) -> (r: Result<(), String>)
    ensures
        r is Ok,
        exists|now: int| clock_range(now) && final(store).state@ == (QuotaView {
            trackers: update_pair(old(store).state@.trackers, key_id@, model_id@, platform_id@,
                |t: TrackerView| after_success(after_call(t, now))),
            auto_switch_enabled: old(store).state@.auto_switch_enabled,
        }),
        final(store).dirty,
{
    let now = clock::now_unix_seconds();
    record_api_call_at(store, key_id, model_id, platform_id, now);
    Ok(())
}

/// Whether a rate-limit answer for (`key_id`, `model_id`) can be recorded:
/// no tracker of the pair has its counter at the maximum.
pub fn can_record_429(store: &QuotaStore, key_id: &str, model_id: &str) -> (r: bool)
    ensures
        r == pair_429_ok(store.state@.trackers, key_id@, model_id@),
{
    let k = owned(key_id);
    let m = owned(model_id);
    let mut i: usize = 0;
    while i < store.state.trackers.len()
        invariant
            i <= store.state.trackers.len(),
            k@ == key_id@,
            m@ == model_id@,
            forall|j: int| 0 <= j < i && store.state.trackers@[j].key_id@ == key_id@ && store.state.trackers@[j].model_id@ == model_id@ ==> can_count_429(#[trigger] store.state.trackers@[j]@),
        decreases store.state.trackers.len() - i,
    {
        if store.state.trackers[i].key_id == k && store.state.trackers[i].model_id == m && store.state.trackers[i].consecutive_429 == u32::MAX {
            assert(store.state@.trackers[i as int] == store.state.trackers@[i as int]@);
            return false;
        }
        i += 1;
    }
    true
}

/// Whether a server error for (`key_id`, `model_id`) can be recorded: no
/// tracker of the pair would overflow its counter or back-off.
pub fn can_record_500(store: &QuotaStore, key_id: &str, model_id: &str) -> (r: bool)
    ensures
        r == pair_500_ok(store.state@.trackers, key_id@, model_id@),
{
    let k = owned(key_id);
    let m = owned(model_id);
    let mut i: usize = 0;
    while i < store.state.trackers.len()
        invariant
            i <= store.state.trackers.len(),
            k@ == key_id@,
            m@ == model_id@,
            forall|j: int| 0 <= j < i && store.state.trackers@[j].key_id@ == key_id@ && store.state.trackers@[j].model_id@ == model_id@ ==> can_count_500(#[trigger] store.state.trackers@[j]@),
        decreases store.state.trackers.len() - i,
    {
        if store.state.trackers[i].key_id == k && store.state.trackers[i].model_id == m && store.state.trackers[i].consecutive_500 as u64 * 5 + 5 > u32::MAX as u64 {
            assert(store.state@.trackers[i as int] == store.state.trackers@[i as int]@);
            return false;
        }
        i += 1;
    }
    true
}

/// Records a rate-limit answer for (`key_id`, `model_id`) at `now`.
pub fn record_429_error_at(store: &mut QuotaStore, key_id: &str, model_id: &str, platform_id: &str, now: i64)
    requires
        pair_429_ok(old(store).state@.trackers, key_id@, model_id@),
    ensures
        final(store).state@ == (QuotaView {
            trackers: update_pair(old(store).state@.trackers, key_id@, model_id@, platform_id@,
                |t: TrackerView| after_429(t, now as int)),
            auto_switch_enabled: old(store).state@.auto_switch_enabled,
        }),
        final(store).dirty,
        final(store).last_save_ts == old(store).last_save_ts,
{
    proof {
        lemma_tracker_index_bound(old(store).state@.trackers, key_id@, model_id@);
    }
    let t = store.state.ensure_tracker(key_id, model_id, platform_id);
    t.record_429_at(now);
    store.dirty = true;
}

/// Records a rate-limit answer for (`key_id`, `model_id`) now.
pub fn record_429_error(store: &mut QuotaStore, key_id: &str, model_id: &str, platform_id: &str) -> (r: Result<(), String>)
    requires
        pair_429_ok(old(store).state@.trackers, key_id@, model_id@),
    ensures
        r is Ok,
        exists|now: int| clock_range(now) && final(store).state@ == (QuotaView {
            trackers: update_pair(old(store).state@.trackers, key_id@, model_id@, platform_id@,
                |t: TrackerView| after_429(t, now)),
            auto_switch_enabled: old(store).state@.auto_switch_enabled,
        }),
        final(store).dirty,
{
    let now = clock::now_unix_seconds();
    record_429_error_at(store, key_id, model_id, platform_id, now);
    Ok(())
}

/// Records a server error for (`key_id`, `model_id`) at `now`; the pair backs off.
pub fn record_500_error_at(store: &mut QuotaStore, key_id: &str, model_id: &str, platform_id: &str, now: i64)
    requires
        clock_range(now as int),
        pair_500_ok(old(store).state@.trackers, key_id@, model_id@),
    ensures
        final(store).state@ == (QuotaView {
            trackers: update_pair(old(store).state@.trackers, key_id@, model_id@, platform_id@,
                |t: TrackerView| after_500(t, now as int)),
            auto_switch_enabled: old(store).state@.auto_switch_enabled,
        }),
        final(store).dirty,
        final(store).last_save_ts == old(store).last_save_ts,
{
    proof {
        lemma_tracker_index_bound(old(store).state@.trackers, key_id@, model_id@);
    }
    let t = store.state.ensure_tracker(key_id, model_id, platform_id);
    t.record_500_at(now);
    store.dirty = true;
}

/// Records a server error for (`key_id`, `model_id`) now.
pub fn record_500_error(store: &mut QuotaStore, key_id: &str, model_id: &str, platform_id: &str) -> (r: Result<(), String>)
    requires
        pair_500_ok(old(store).state@.trackers, key_id@, model_id@),
    ensures
        r is Ok,
        exists|now: int| clock_range(now) && final(store).state@ == (QuotaView {
            trackers: update_pair(old(store).state@.trackers, key_id@, model_id@, platform_id@,
                |t: TrackerView| after_500(t, now)),
            auto_switch_enabled: old(store).state@.auto_switch_enabled,
        }),
        final(store).dirty,
{
    let now = clock::now_unix_seconds();
    record_500_error_at(store, key_id, model_id, platform_id, now);
    Ok(())
}

/// Keeps the candidate keys that may serve `model_id` at `now`: keys without a
/// tracker for the model are kept (fresh keys stay selectable); keys whose
/// tracker, once its windows are cleaned, is in back-off or over a limit are
/// dropped. The trackers consulted are left cleaned and the store is marked dirty.
pub fn filter_available_keys_at(
    store: &mut QuotaStore,
    candidates: &Vec<String>,
    model_id: &str,
    now: i64,
    models: &Vec<Model>,
) -> (r: Vec<String>)
    requires
        clock_range(now as int),
    ensures
        key_views(r@) == passing(key_views(candidates@), old(store).state@.trackers, model_id@, now as int, models@),
        final(store).state@ == (QuotaView {
            trackers: cleaned_where(old(store).state@.trackers, key_views(candidates@), model_id@, now as int),
            auto_switch_enabled: old(store).state@.auto_switch_enabled,
        }),
        final(store).dirty,
        final(store).last_save_ts == old(store).last_save_ts,
{
    broadcast use lemma_views_update;
    let ghost orig = old(store).state@.trackers;
    let ghost cands = key_views(candidates@);
    let m = owned(model_id);
    let mut result: Vec<String> = Vec::new();
    let mut j: usize = 0;
    proof {
        assert(cleaned_where(orig, cands.take(0), m@, now as int) =~= orig);
    }
    while j < candidates.len()
        invariant
            j <= candidates.len(),
            cands == key_views(candidates@),
            orig.len() == store.state@.trackers.len(),
            clock_range(now as int),
            store.state@.trackers == cleaned_where(orig, cands.take(j as int), m@, now as int),
            store.state@.auto_switch_enabled == old(store).state@.auto_switch_enabled,
            store.last_save_ts == old(store).last_save_ts,
            key_views(result@) == passing(cands.take(j as int), orig, m@, now as int, models@),
        decreases candidates.len() - j,
    {
        let ghost cur = store.state@.trackers;
        let k = &candidates[j];
        proof {
            assert(cands[j as int] == k@);
            assert forall|i: int| 0 <= i < cur.len() implies (#[trigger] cur[i]).key_id == orig[i].key_id && cur[i].model_id == orig[i].model_id by {
            }
            lemma_tracker_index_same_keys(cur, orig, k@, m@);
            lemma_tracker_index_bound(orig, k@, m@);
            assert(cands.take(j + 1).drop_last() =~= cands.take(j as int));
            assert(cands.take(j + 1).last() == k@);
        }
        let keep = match store.state.find_tracker(k, &m) {
            None => true,
            Some(i) => {
                proof {
                    if hit_by(orig, cands.take(j as int), m@, i as int) {
                        lemma_cleaned_idempotent(orig[i as int], now as int);
                    }
                }
                store.state.trackers[i].clean_all_windows_at(now);
                let ok = store.state.trackers[i].is_available_at(now, models);
                proof {
                    let next = cleaned_where(orig, cands.take(j + 1), m@, now as int);
                    assert(hit_by(orig, cands.take(j + 1), m@, i as int)) by {
                        assert(cands.take(j + 1)[j as int] == k@);
                    }
                    assert forall|x: int| 0 <= x < orig.len() && x != i implies
                        hit_by(orig, cands.take(j + 1), m@, x) == hit_by(orig, cands.take(j as int), m@, x) by {
                        if hit_by(orig, cands.take(j + 1), m@, x) {
                            let y = choose|y: int| 0 <= y < j + 1 && tracker_index(orig, #[trigger] cands.take(j + 1)[y], m@) == Some(x);
                            assert(y < j);
                            assert(cands.take(j as int)[y] == cands.take(j + 1)[y]);
                        }
                        if hit_by(orig, cands.take(j as int), m@, x) {
                            let y = choose|y: int| 0 <= y < j && tracker_index(orig, #[trigger] cands.take(j as int)[y], m@) == Some(x);
                            assert(cands.take(j as int)[y] == cands.take(j + 1)[y]);
                        }
                    }
                    let after = store.state@.trackers;
                    assert(after.len() == next.len());
                    assert(after[i as int] == cleaned(cur[i as int], now as int));
                    assert(cur[i as int] == (if hit_by(orig, cands.take(j as int), m@, i as int) { cleaned(orig[i as int], now as int) } else { orig[i as int] }));
                    assert(next[i as int] == cleaned(orig[i as int], now as int));
                    assert forall|x: int| 0 <= x < after.len() implies after[x] == next[x] by {
                        if x != i {
                            assert(after[x] == cur[x]);
                        }
                    }
                    assert(after =~= next);
                }
                ok
            },
        };
        proof {
            if tracker_index(orig, k@, m@) is None {
                let next = cleaned_where(orig, cands.take(j + 1), m@, now as int);
                assert forall|x: int| 0 <= x < orig.len() implies
                    hit_by(orig, cands.take(j + 1), m@, x) == hit_by(orig, cands.take(j as int), m@, x) by {
                    if hit_by(orig, cands.take(j + 1), m@, x) {
                        let y = choose|y: int| 0 <= y < j + 1 && tracker_index(orig, #[trigger] cands.take(j + 1)[y], m@) == Some(x);
                        assert(y < j);
                        assert(cands.take(j as int)[y] == cands.take(j + 1)[y]);
                    }
                    if hit_by(orig, cands.take(j as int), m@, x) {
                        let y = choose|y: int| 0 <= y < j && tracker_index(orig, #[trigger] cands.take(j as int)[y], m@) == Some(x);
                        assert(cands.take(j as int)[y] == cands.take(j + 1)[y]);
                    }
                }
                assert(store.state@.trackers =~= next);
            }
            assert(keep == key_passes(orig, k@, m@, now as int, models@));
        }
        if keep {
            result.push(k.clone());
        }
        proof {
            assert(key_views(result@) =~= passing(cands.take(j + 1), orig, m@, now as int, models@));
        }
        j += 1;
    }
    proof {
        assert(cands.take(candidates.len() as int) =~= cands);
    }
    store.dirty = true;
    result
}

/// Keeps the candidate keys that may serve `model_id` now (see
/// [`filter_available_keys_at`]). `platform_id` is not consulted: a tracker is
/// identified by its key and model.
pub fn filter_available_keys(
    store: &mut QuotaStore,
    candidates: &Vec<String>,
    model_id: &str,
    platform_id: &str,
    models: &Vec<Model>,
) -> (r: Vec<String>)
    ensures
        exists|now: int| clock_range(now) && key_views(r@) == passing(key_views(candidates@), old(store).state@.trackers, model_id@, now, models@)
            && final(store).state@ == (QuotaView {
                trackers: cleaned_where(old(store).state@.trackers, key_views(candidates@), model_id@, now),
                auto_switch_enabled: old(store).state@.auto_switch_enabled,
            }),
        final(store).dirty,
{
    let now = clock::now_unix_seconds();
    filter_available_keys_at(store, candidates, model_id, now, models)
}

/// The key of the first available tracker of `model_id` with the least usage.
pub fn get_best_available_key_for_model(store: &QuotaStore, model_id: &str, models: &Vec<Model>) -> (r: Result<Option<String>, String>)
    requires
        usage_fits(store.state@.trackers),
    ensures
        exists|now: int| clock_range(now) && match best_index(store.state@.trackers, model_id@, now, models@) {
            None => r == Ok::<Option<String>, String>(None),
            Some(i) => r matches Ok(Some(k)) && k@ == store.state@.trackers[i].key_id,
        },
{
    let now = clock::now_unix_seconds();
    match store.state.get_best_available_key_for_model_at(model_id, now, models) {
        Some(t) => Ok(Some(t.key_id.clone())),
        None => Ok(None),
    }
}

/// Removes every tracker of the key and marks the store dirty.
pub fn remove_key_tracker(store: &mut QuotaStore, key_id: &str) -> (r: Result<(), String>)
    ensures
        r is Ok,
        final(store).state@ == (QuotaView {
            trackers: drop_where(old(store).state@.trackers, |t: TrackerView| t.key_id == key_id@),
            auto_switch_enabled: old(store).state@.auto_switch_enabled,
        }),
        final(store).dirty,
{
    store.state.remove_key_trackers(key_id);
    store.dirty = true;
    Ok(())
}

/// Removes every tracker of the model and marks the store dirty.
pub fn remove_model_trackers(store: &mut QuotaStore, model_id: &str) -> (r: Result<(), String>)
    ensures
        r is Ok,
        final(store).state@ == (QuotaView {
            trackers: drop_where(old(store).state@.trackers, |t: TrackerView| t.model_id == model_id@),
            auto_switch_enabled: old(store).state@.auto_switch_enabled,
        }),
        final(store).dirty,
{
    store.state.remove_model_trackers(model_id);
    store.dirty = true;
    Ok(())
}

/// Removes every tracker of the platform and marks the store dirty.
pub fn remove_platform_trackers(store: &mut QuotaStore, platform_id: &str) -> (r: Result<(), String>)
    ensures
        r is Ok,
        final(store).state@ == (QuotaView {
            trackers: drop_where(old(store).state@.trackers, |t: TrackerView| t.platform_id == platform_id@),
            auto_switch_enabled: old(store).state@.auto_switch_enabled,
        }),
        final(store).dirty,
{
    store.state.remove_platform_trackers(platform_id);
    store.dirty = true;
    Ok(())
}

/// Turns automatic key switching on or off.
pub fn set_auto_switch(store: &mut QuotaStore, enabled: bool) -> (r: Result<(), String>)
    ensures
        r is Ok,
        final(store).state@ == (QuotaView { auto_switch_enabled: enabled, ..old(store).state@ }),
        final(store).dirty,
{
    store.state.auto_switch_enabled = enabled;
    store.dirty = true;
    Ok(())
}

/// Whether automatic key switching is on.
pub fn get_auto_switch_enabled(store: &QuotaStore) -> (r: Result<bool, String>)
    ensures
        r == Ok::<bool, String>(store.state@.auto_switch_enabled),
{
    Ok(store.state.auto_switch_enabled)
}

/// Lifts every back-off that ran out by `now` and returns the keys of the
/// trackers that were re-enabled, in order. The store is marked dirty when any was.
pub fn clean_expired_disabled_at(store: &mut QuotaStore, now: i64) -> (r: Vec<String>)
    ensures
        key_views(r@) == reenabled_keys(old(store).state@.trackers, now as int),
        final(store).state@ == (QuotaView {
            trackers: old(store).state@.trackers.map_values(|t: TrackerView| reenabled(t, now as int)),
            auto_switch_enabled: old(store).state@.auto_switch_enabled,
        }),
        final(store).dirty == (old(store).dirty || r@.len() > 0),
        final(store).last_save_ts == old(store).last_save_ts,
{
    broadcast use lemma_views_update;
    let ghost orig = old(store).state@.trackers;
    let mut out: Vec<String> = Vec::new();
    let mut i: usize = 0;
    while i < store.state.trackers.len()
        invariant
            i <= store.state.trackers.len(),
            orig.len() == store.state@.trackers.len(),
            forall|x: int| 0 <= x < i ==> store.state@.trackers[x] == reenabled(orig[x], now as int),
            forall|x: int| i <= x < orig.len() ==> store.state@.trackers[x] == orig[x],
            key_views(out@) == reenabled_keys(orig.take(i as int), now as int),
            store.state@.auto_switch_enabled == old(store).state@.auto_switch_enabled,
            store.dirty == old(store).dirty,
            store.last_save_ts == old(store).last_save_ts,
        decreases store.state.trackers.len() - i,
    {
        proof {
            assert(orig.take(i + 1).drop_last() =~= orig.take(i as int));
            assert(orig.take(i + 1).last() == orig[i as int]);
            assert(store.state.trackers@[i as int]@ == orig[i as int]);
        }
        let over = match store.state.trackers[i].disabled_until {
            Some(until) => now >= until,
            None => false,
        };
        let ghost bv = store.state@.trackers;
        if over {
            let ghost braw = store.state.trackers@;
            store.state.trackers[i].disabled_until = None;
            store.state.trackers[i].disabled_reason = None;
            proof {
                lemma_views_update(braw, i as int, store.state.trackers@[i as int]);
                assert(store.state.trackers@ =~= braw.update(i as int, store.state.trackers@[i as int]));
                assert forall|x: int| 0 <= x < orig.len() && x != i implies store.state@.trackers[x] == bv[x] by {}
            }
            let k = store.state.trackers[i].key_id.clone();
            let ghost ob = out@;
            out.push(k);
            proof {
                assert(key_views(out@) =~= key_views(ob).push(orig[i as int].key_id));
                assert(store.state@.trackers[i as int] =~= reenabled(orig[i as int], now as int));
            }
        }
        proof {
            assert(store.state@.trackers[i as int] =~= reenabled(orig[i as int], now as int));
        }
        i += 1;
    }
    proof {
        assert(orig.take(orig.len() as int) =~= orig);
        assert(store.state@.trackers =~= orig.map_values(|t: TrackerView| reenabled(t, now as int)));
        assert(key_views(out@).len() == out@.len());
    }
    if out.len() > 0 {
        store.dirty = true;
    }
    out
}

/// Lifts every back-off that has run out now; returns the re-enabled keys.
pub fn clean_expired_disabled(store: &mut QuotaStore) -> (r: Result<Vec<String>, String>)
    ensures
        r matches Ok(keys) && exists|now: int| clock_range(now)
            && key_views(keys@) == reenabled_keys(old(store).state@.trackers, now)
            && final(store).state@ == (QuotaView {
                trackers: old(store).state@.trackers.map_values(|t: TrackerView| reenabled(t, now)),
                auto_switch_enabled: old(store).state@.auto_switch_enabled,
            }),
{
    let now = clock::now_unix_seconds();
    Ok(clean_expired_disabled_at(store, now))
}

/// Cleans the windows of every tracker at `now`.
pub fn clean_expired_windows_at(store: &mut QuotaStore, now: i64)
    requires
        clock_range(now as int),
    ensures
        final(store).state@ == (QuotaView {
            trackers: old(store).state@.trackers.map_values(|t: TrackerView| cleaned(t, now as int)),
            auto_switch_enabled: old(store).state@.auto_switch_enabled,
        }),
        final(store).dirty == old(store).dirty,
        final(store).last_save_ts == old(store).last_save_ts,
{
    broadcast use lemma_views_update;
    let ghost orig = old(store).state@.trackers;
    let mut i: usize = 0;
    while i < store.state.trackers.len()
        invariant
            i <= store.state.trackers.len(),
            clock_range(now as int),
            orig.len() == store.state@.trackers.len(),
            forall|x: int| 0 <= x < i ==> store.state@.trackers[x] == cleaned(orig[x], now as int),
            forall|x: int| i <= x < orig.len() ==> store.state@.trackers[x] == orig[x],
            store.state@.auto_switch_enabled == old(store).state@.auto_switch_enabled,
            store.dirty == old(store).dirty,
            store.last_save_ts == old(store).last_save_ts,
        decreases store.state.trackers.len() - i,
    {
        proof {
            assert(store.state.trackers@[i as int]@ == orig[i as int]);
        }
        let ghost bv = store.state@.trackers;
        let ghost braw = store.state.trackers@;
        store.state.trackers[i].clean_all_windows_at(now);
        proof {
            lemma_views_update(braw, i as int, store.state.trackers@[i as int]);
            assert(store.state.trackers@ == braw.update(i as int, store.state.trackers@[i as int]));
            assert forall|x: int| 0 <= x < orig.len() && x != i implies store.state@.trackers[x] == bv[x] by {}
            assert(store.state@.trackers[i as int] =~= cleaned(orig[i as int], now as int));
        }
        i += 1;
    }
    proof {
        assert(store.state@.trackers =~= orig.map_values(|t: TrackerView| cleaned(t, now as int)));
    }
}

/// Cleans the windows of every tracker now.
pub fn clean_expired_windows(store: &mut QuotaStore) -> (r: Result<(), String>)
    ensures
        r is Ok,
        exists|now: int| clock_range(now) && final(store).state@ == (QuotaView {
            trackers: old(store).state@.trackers.map_values(|t: TrackerView| cleaned(t, now)),
            auto_switch_enabled: old(store).state@.auto_switch_enabled,
        }),
{
    let now = clock::now_unix_seconds();
    clean_expired_windows_at(store, now);
    Ok(())
}

// ── Status reports ──

/// One window as shown to the user: calls held, limit, earliest call held.
#[derive(Debug, Clone, Copy)]
pub struct WindowStatus {
    pub count: u32,
    pub max: u32,
    pub window_start: i64,
}

/// The status of a window holding `w` under the limit `max`.
pub open spec fn window_status(w: Seq<i64>, max: u32) -> WindowStatus {
    WindowStatus { count: w.len() as u32, max, window_start: if w.len() > 0 { w[0] } else { 0 } }
}

fn window_status_of(w: &UsageWindow, max: u32) -> (r: WindowStatus)
    ensures
        r == window_status(w@, max),
{
    WindowStatus { count: w.len(), max, window_start: w.window_start() }
}

/// The full status of one tracker.
#[derive(Debug, Clone)]
pub struct TrackerStatus {
    pub key_id: String,
    pub model_id: String,
    pub platform_id: String,
    pub five_hour: WindowStatus,
    pub day: WindowStatus,
    pub month: WindowStatus,
    pub consecutive_429: u32,
    pub consecutive_500: u32,
    pub disabled_until: Option<i64>,
    pub disabled_reason: Option<String>,
    pub is_available: bool,
}

/// Whether `s` reports the tracker `t` at `now`.
pub open spec fn reports_tracker(s: TrackerStatus, t: TrackerView, now: int, models: Seq<Model>) -> bool {
    let l = limits_of(models, t.model_id, t.platform_id);
    &&& s.key_id@ == t.key_id
    &&& s.model_id@ == t.model_id
    &&& s.platform_id@ == t.platform_id
    &&& s.five_hour == window_status(t.five_hour, l.max_per_5hrs)
    &&& s.day == window_status(t.day, l.max_per_day)
    &&& s.month == window_status(t.month, l.max_per_month)
    &&& s.consecutive_429 == t.consecutive_429
    &&& s.consecutive_500 == t.consecutive_500
    &&& s.disabled_until == t.disabled_until
    &&& opt_view(s.disabled_reason) == t.disabled_reason
    &&& s.is_available == available_at(t, now, models)
}

/// The usage of one key on one model.
#[derive(Debug, Clone)]
pub struct KeyUsage {
    pub key_id: String,
    pub model_id: String,
    pub key_name: String,
    pub disabled: bool,
    pub disabled_reason: Option<String>,
    pub five_hour: WindowStatus,
    pub day: WindowStatus,
    pub month: WindowStatus,
    pub is_available: bool,
}

/// Whether `u` reports the usage held by the tracker `t` at `now`.
pub open spec fn reports_usage(u: KeyUsage, t: TrackerView, now: int, models: Seq<Model>) -> bool {
    let l = limits_of(models, t.model_id, t.platform_id);
    &&& u.key_id@ == t.key_id
    &&& u.model_id@ == t.model_id
    &&& u.key_name@ == t.key_id
    &&& u.disabled == !available_at(t, now, models)
    &&& opt_view(u.disabled_reason) == t.disabled_reason
    &&& u.five_hour == window_status(t.five_hour, l.max_per_5hrs)
    &&& u.day == window_status(t.day, l.max_per_day)
    &&& u.month == window_status(t.month, l.max_per_month)
    &&& u.is_available == available_at(t, now, models)
}

/// Whether `u` is the usage of a pair that has no tracker yet: nothing counted,
/// no limit shown, available.
pub open spec fn reports_unused(u: KeyUsage, key_id: Seq<char>, model_id: Seq<char>) -> bool {
    let zero = WindowStatus { count: 0, max: 0, window_start: 0 };
    &&& u.key_id@ == key_id
    &&& u.model_id@ == model_id
    &&& u.key_name@ == Seq::<char>::empty()
    &&& !u.disabled
    &&& u.disabled_reason is None
    &&& u.five_hour == zero
    &&& u.day == zero
    &&& u.month == zero
    &&& u.is_available
}

fn tracker_status(t: &ModelKeyTracker, now: i64, models: &Vec<Model>) -> (r: TrackerStatus)
    ensures
        reports_tracker(r, t@, now as int, models@),
{
    let l = t.get_limits(models);
    TrackerStatus {
        key_id: t.key_id.clone(),
        model_id: t.model_id.clone(),
        platform_id: t.platform_id.clone(),
        five_hour: window_status_of(&t.five_hour, l.max_per_5hrs),
        day: window_status_of(&t.day, l.max_per_day),
        month: window_status_of(&t.month, l.max_per_month),
        consecutive_429: t.consecutive_429,
        consecutive_500: t.consecutive_500,
        disabled_until: t.disabled_until,
        disabled_reason: copy_opt_string(&t.disabled_reason),
        is_available: t.is_available_at(now, models),
    }
}

fn key_usage(t: &ModelKeyTracker, now: i64, models: &Vec<Model>) -> (r: KeyUsage)
    ensures
        reports_usage(r, t@, now as int, models@),
{
    let l = t.get_limits(models);
    let available = t.is_available_at(now, models);
    KeyUsage {
        key_id: t.key_id.clone(),
        model_id: t.model_id.clone(),
        key_name: t.key_id.clone(),
        disabled: !available,
        disabled_reason: copy_opt_string(&t.disabled_reason),
        five_hour: window_status_of(&t.five_hour, l.max_per_5hrs),
        day: window_status_of(&t.day, l.max_per_day),
        month: window_status_of(&t.month, l.max_per_month),
        is_available: available,
    }
}

/// Cleans every window at `now`, then reports every tracker in order.
pub fn get_all_window_status_at(store: &mut QuotaStore, now: i64, models: &Vec<Model>) -> (r: Vec<TrackerStatus>)
    requires
        clock_range(now as int),
    ensures
        final(store).state@ == (QuotaView {
            trackers: old(store).state@.trackers.map_values(|t: TrackerView| cleaned(t, now as int)),
            auto_switch_enabled: old(store).state@.auto_switch_enabled,
        }),
        final(store).dirty == old(store).dirty,
        final(store).last_save_ts == old(store).last_save_ts,
        r@.len() == final(store).state@.trackers.len(),
        forall|i: int| 0 <= i < r@.len() ==> reports_tracker(#[trigger] r@[i], final(store).state@.trackers[i], now as int, models@),
{
    clean_expired_windows_at(store, now);
    let mut out: Vec<TrackerStatus> = Vec::new();
    let mut i: usize = 0;
    while i < store.state.trackers.len()
        invariant
            i <= store.state.trackers.len(),
            out@.len() == i,
            forall|x: int| 0 <= x < i ==> reports_tracker(#[trigger] out@[x], store.state@.trackers[x], now as int, models@),
        decreases store.state.trackers.len() - i,
    {
        let s = tracker_status(&store.state.trackers[i], now, models);
        out.push(s);
        i += 1;
    }
    out
}

/// Cleans every window now, then reports every tracker in order.
pub fn get_all_window_status(store: &mut QuotaStore, models: &Vec<Model>) -> (r: Result<Vec<TrackerStatus>, String>)
    ensures
        r matches Ok(v) && exists|now: int| clock_range(now) && {
            &&& final(store).state@ == (QuotaView {
                trackers: old(store).state@.trackers.map_values(|t: TrackerView| cleaned(t, now)),
                auto_switch_enabled: old(store).state@.auto_switch_enabled,
            })
            &&& v@.len() == final(store).state@.trackers.len()
            &&& forall|i: int| 0 <= i < v@.len() ==> reports_tracker(#[trigger] v@[i], final(store).state@.trackers[i], now, models@)
        },
{
    let now = clock::now_unix_seconds();
    Ok(get_all_window_status_at(store, now, models))
}

/// The usage of `key_id` on `model_id` at `now`: its tracker is cleaned first;
/// a pair without a tracker reports nothing used.
pub fn get_key_usage_at(store: &mut QuotaStore, key_id: &str, model_id: &str, now: i64, models: &Vec<Model>) -> (r: KeyUsage)
    requires
        clock_range(now as int),
    ensures
        final(store).dirty == old(store).dirty,
        final(store).last_save_ts == old(store).last_save_ts,
        match tracker_index(old(store).state@.trackers, key_id@, model_id@) {
            None => final(store).state@ == old(store).state@ && reports_unused(r, key_id@, model_id@),
            Some(i) => final(store).state@ == (QuotaView {
                    trackers: old(store).state@.trackers.update(i, cleaned(old(store).state@.trackers[i], now as int)),
                    auto_switch_enabled: old(store).state@.auto_switch_enabled,
                })
                && reports_usage(r, cleaned(old(store).state@.trackers[i], now as int), now as int, models@),
        },
{
    broadcast use lemma_views_update;
    let k = owned(key_id);
    let m = owned(model_id);
    match store.state.find_tracker(&k, &m) {
        Some(i) => {
            let ghost raw = store.state.trackers@;
            proof {
                assert(raw[i as int]@ == old(store).state@.trackers[i as int]);
            }
            store.state.trackers[i].clean_all_windows_at(now);
            proof {
                lemma_views_update(raw, i as int, store.state.trackers@[i as int]);
                assert(store.state.trackers@ == raw.update(i as int, store.state.trackers@[i as int]));
                assert(store.state.trackers@[i as int]@ == cleaned(old(store).state@.trackers[i as int], now as int));
                assert(store.state@.trackers == old(store).state@.trackers.update(i as int, cleaned(old(store).state@.trackers[i as int], now as int)));
            }
            key_usage(&store.state.trackers[i], now, models)
        },
        None => {
            let zero = WindowStatus { count: 0, max: 0, window_start: 0 };
            KeyUsage {
                key_id: k,
                model_id: m,
                key_name: String::new(),
                disabled: false,
                disabled_reason: None,
                five_hour: zero,
                day: zero,
                month: zero,
                is_available: true,
            }
        },
    }
}

/// The usage of `key_id` on `model_id` now (see [`get_key_usage_at`]).
pub fn get_key_usage(store: &mut QuotaStore, key_id: &str, model_id: &str, models: &Vec<Model>) -> (r: Result<KeyUsage, String>)
    ensures
        r matches Ok(u) && match tracker_index(old(store).state@.trackers, key_id@, model_id@) {
            None => final(store).state@ == old(store).state@ && reports_unused(u, key_id@, model_id@),
            Some(i) => exists|now: int| clock_range(now) && final(store).state@ == (QuotaView {
                    trackers: old(store).state@.trackers.update(i, cleaned(old(store).state@.trackers[i], now)),
                    auto_switch_enabled: old(store).state@.auto_switch_enabled,
                })
                && reports_usage(u, cleaned(old(store).state@.trackers[i], now), now, models@),
        },
{
    let now = clock::now_unix_seconds();
    Ok(get_key_usage_at(store, key_id, model_id, now, models))
}

/// The trackers with those of `model_id` cleaned at `now`.
pub open spec fn cleaned_model(ts: Seq<TrackerView>, model_id: Seq<char>, now: int) -> Seq<TrackerView> {
    ts.map_values(|t: TrackerView| if t.model_id == model_id { cleaned(t, now) } else { t })
}

/// Whether a tracker is one of `model_id`.
pub open spec fn is_of_model(model_id: Seq<char>) -> spec_fn(TrackerView) -> bool {
    |t: TrackerView| t.model_id == model_id
}

/// The trackers of `model_id`, in order.
pub open spec fn of_model(ts: Seq<TrackerView>, model_id: Seq<char>) -> Seq<TrackerView> {
    crate::sorting::keep(ts, is_of_model(model_id))
}

/// The usage of every key on `model_id` at `now`, in tracker order; the
/// model's trackers are cleaned first.
pub fn get_model_usage_at(store: &mut QuotaStore, model_id: &str, now: i64, models: &Vec<Model>) -> (r: Vec<KeyUsage>)
    requires
        clock_range(now as int),
    ensures
        final(store).state@ == (QuotaView {
            trackers: cleaned_model(old(store).state@.trackers, model_id@, now as int),
            auto_switch_enabled: old(store).state@.auto_switch_enabled,
        }),
        final(store).dirty == old(store).dirty,
        final(store).last_save_ts == old(store).last_save_ts,
        r@.len() == of_model(final(store).state@.trackers, model_id@).len(),
        forall|i: int| 0 <= i < r@.len() ==> reports_usage(#[trigger] r@[i], of_model(final(store).state@.trackers, model_id@)[i], now as int, models@),
{
    broadcast use lemma_views_update;
    let ghost orig = old(store).state@.trackers;
    let ghost f = is_of_model(model_id@);
    let mid = owned(model_id);
    let mut out: Vec<KeyUsage> = Vec::new();
    let mut i: usize = 0;
    while i < store.state.trackers.len()
        invariant
            i <= store.state.trackers.len(),
            clock_range(now as int),
            mid@ == model_id@,
            f == is_of_model(model_id@),
            orig.len() == store.state@.trackers.len(),
            forall|x: int| 0 <= x < i ==> store.state@.trackers[x] == (if orig[x].model_id == model_id@ { cleaned(orig[x], now as int) } else { orig[x] }),
            forall|x: int| i <= x < orig.len() ==> store.state@.trackers[x] == orig[x],
            store.state@.auto_switch_enabled == old(store).state@.auto_switch_enabled,
            store.dirty == old(store).dirty,
            store.last_save_ts == old(store).last_save_ts,
            out@.len() == crate::sorting::keep(store.state@.trackers.take(i as int), f).len(),
            forall|x: int| 0 <= x < out@.len() ==> reports_usage(#[trigger] out@[x], crate::sorting::keep(store.state@.trackers.take(i as int), f)[x], now as int, models@),
        decreases store.state.trackers.len() - i,
    {
        proof {
            assert(store.state.trackers@[i as int]@ == orig[i as int]);
        }
        let ghost before = store.state@.trackers;
        if store.state.trackers[i].model_id == mid {
            let ghost braw = store.state.trackers@;
            store.state.trackers[i].clean_all_windows_at(now);
            proof {
                lemma_views_update(braw, i as int, store.state.trackers@[i as int]);
                assert(store.state.trackers@ == braw.update(i as int, store.state.trackers@[i as int]));
                assert(store.state@.trackers.take(i as int) =~= before.take(i as int));
            }
            let u = key_usage(&store.state.trackers[i], now, models);
            out.push(u);
            proof {
                let cur = store.state@.trackers;
                assert(cur.take(i + 1).drop_last() =~= cur.take(i as int));
                assert(cur.take(i + 1).last() == cur[i as int]);
                assert(cur[i as int] == store.state.trackers@[i as int]@);
                assert(f(cur[i as int]));
            }
        } else {
            proof {
                let cur = store.state@.trackers;
                assert(cur.take(i + 1).drop_last() =~= cur.take(i as int));
                assert(cur.take(i + 1).last() == cur[i as int]);
                assert(cur[i as int] == store.state.trackers@[i as int]@);
                assert(!f(cur[i as int]));
            }
        }
        i += 1;
    }
    proof {
        assert(store.state@.trackers =~= cleaned_model(orig, model_id@, now as int));
        assert(store.state@.trackers.take(i as int) =~= store.state@.trackers);
    }
    out
}

/// The usage of every key on `model_id` now (see [`get_model_usage_at`]).
pub fn get_model_usage(store: &mut QuotaStore, model_id: &str, models: &Vec<Model>) -> (r: Result<Vec<KeyUsage>, String>)
    ensures
        r matches Ok(v) && exists|now: int| clock_range(now) && {
            &&& final(store).state@ == (QuotaView {
                trackers: cleaned_model(old(store).state@.trackers, model_id@, now),
                auto_switch_enabled: old(store).state@.auto_switch_enabled,
            })
            &&& v@.len() == of_model(final(store).state@.trackers, model_id@).len()
            &&& forall|i: int| 0 <= i < v@.len() ==> reports_usage(#[trigger] v@[i], of_model(final(store).state@.trackers, model_id@)[i], now, models@)
        },
{
    let now = clock::now_unix_seconds();
    Ok(get_model_usage_at(store, model_id, now, models))
}

/// Installs the state read at start-up; a state that could not be read is
/// replaced by the default one (no tracker, automatic switching on).
pub fn initialize(store: &mut QuotaStore, loaded: Result<QuotaWindowState, String>)
    ensures
        match loaded {
            Ok(s) => final(store).state@ == s@,
            Err(_) => final(store).state@ == (QuotaView { trackers: Seq::empty(), auto_switch_enabled: true }),
        },
        final(store).dirty == old(store).dirty,
        final(store).last_save_ts == old(store).last_save_ts,
{
    match loaded {
        Ok(s) => {
            store.state = s;
        },
        Err(_) => {
            store.state = QuotaWindowState::default();
        },
    }
}

// ── Laws ──

/// A rate-limit answer never takes a key out of rotation: availability at
/// any time is the same before and after it is recorded.
pub proof fn law_429_keeps_availability(t: TrackerView, now: int, at: int, models: Seq<Model>)
    ensures
        available_at(after_429(t, now), at, models) == available_at(t, at, models),
{
    assert(limits_of(models, after_429(t, now).model_id, after_429(t, now).platform_id) == limits_of(models, t.model_id, t.platform_id));
}

/// A server error puts the pair in back-off at once, for at most 60 seconds.
pub proof fn law_500_backs_off(t: TrackerView, now: int)
    requires
        can_count_500(t),
        clock_range(now),
    ensures
        backing_off(after_500(t, now), now),
        !backing_off(after_500(t, now), now + 60),
        1 <= backoff_secs(after_500(t, now).consecutive_500 as int) <= 60,
{
}

/// A limit of 0 means unlimited: a model whose three limits are 0 never has an
/// exceeded window, however many calls are held.
pub proof fn law_zero_limit_is_unlimited(t: TrackerView, models: Seq<Model>)
    requires
        limits_of(models, t.model_id, t.platform_id).max_per_5hrs == 0,
        limits_of(models, t.model_id, t.platform_id).max_per_day == 0,
        limits_of(models, t.model_id, t.platform_id).max_per_month == 0,
    ensures
        !any_exceeded(t, models),
{
    assert(exceeded_names(t, limits_of(models, t.model_id, t.platform_id)) =~= Seq::<Seq<char>>::empty());
}

/// After the sweep, a tracker keeps a back-off only if it is still running;
/// its windows are untouched.
pub proof fn law_reenabled_not_backing_off(t: TrackerView, now: int)
    ensures
        reenabled(t, now).disabled_until matches Some(u) ==> now < u,
        backing_off(reenabled(t, now), now) == backing_off(t, now),
        reenabled(t, now).five_hour == t.five_hour,
        reenabled(t, now).day == t.day,
        reenabled(t, now).month == t.month,
{
}

/// Making sure a pair has a tracker twice is the same as once, and the pair
/// then has exactly the tracker at the ensured index.
pub proof fn law_ensure_tracker_idempotent(ts: Seq<TrackerView>, key_id: Seq<char>, model_id: Seq<char>, platform_id: Seq<char>)
    ensures
        ensured(ensured(ts, key_id, model_id, platform_id), key_id, model_id, platform_id) == ensured(ts, key_id, model_id, platform_id),
        tracker_index(ensured(ts, key_id, model_id, platform_id), key_id, model_id) == Some(ensured_index(ts, key_id, model_id)),
{
    lemma_tracker_index_bound(ts, key_id, model_id);
    if tracker_index(ts, key_id, model_id) is None {
        let e = ts.push(fresh(key_id, model_id, platform_id));
        assert(e.drop_last() =~= ts);
    }
}

/// A successful call is counted in every window and clears the error streaks.
pub proof fn law_success_counts_and_resets(t: TrackerView, now: int)
    ensures
        after_success(after_call(t, now)).five_hour.last() == now as i64,
        after_success(after_call(t, now)).day.last() == now as i64,
        after_success(after_call(t, now)).month.last() == now as i64,
        after_success(after_call(t, now)).consecutive_429 == 0,
        after_success(after_call(t, now)).consecutive_500 == 0,
        after_success(after_call(t, now)).disabled_until == t.disabled_until,
{
}

/// The chosen key is an available tracker of the model, and no available
/// tracker of the model has less usage.
pub proof fn law_best_key_is_least_used(ts: Seq<TrackerView>, model_id: Seq<char>, now: int, models: Seq<Model>)
    ensures
        best_index(ts, model_id, now, models) matches Some(b) ==> {
            &&& 0 <= b < ts.len()
            &&& ts[b].model_id == model_id
            &&& available_at(ts[b], now, models)
            &&& forall|i: int| 0 <= i < ts.len() && ts[i].model_id == model_id && available_at(ts[i], now, models)
                ==> usage_total(ts[b]) <= usage_total(#[trigger] ts[i])
        },
        best_index(ts, model_id, now, models) is None ==>
            forall|i: int| 0 <= i < ts.len() ==> !((#[trigger] ts[i]).model_id == model_id && available_at(ts[i], now, models)),
    decreases ts.len(),
{
    if ts.len() > 0 {
        let d = ts.drop_last();
        law_best_key_is_least_used(d, model_id, now, models);
        assert forall|i: int| 0 <= i < d.len() implies d[i] == ts[i] by {}
    }
}

} // verus!
