//! Token usage counters: an aggregate and one per platform.

use vstd::prelude::*;
use crate::clock::{self, clock_range};
use crate::text::owned;

verus! {

/// Minimum seconds between two saves of the counters.
pub const SAVE_THROTTLE_SECS: i64 = 5;

/// Aggregate token usage counters.
#[derive(Debug, Clone, Copy, PartialEq, Eq, Structural)]
pub struct TokenStats {
    pub prompt_tokens: u64,
    pub completion_tokens: u64,
    pub total_tokens: u64,
    pub request_count: u64,
    pub streaming_request_count: u64,
    /// When the first request was counted (Unix seconds).
    pub first_request_at: i64,
    /// When a request was last counted (Unix seconds).
    pub last_updated: i64,
}

/// `x` capped at `u64::MAX`.
pub open spec fn sat(x: int) -> u64 {
    if x > u64::MAX { u64::MAX } else { x as u64 }
}

/// The counters after a request with token usage at `now`.
pub open spec fn with_usage(s: TokenStats, prompt: u64, completion: u64, now: i64) -> TokenStats {
    TokenStats {
        prompt_tokens: sat(s.prompt_tokens + prompt),
        completion_tokens: sat(s.completion_tokens + completion),
        total_tokens: sat(s.total_tokens + prompt + completion),
        request_count: sat(s.request_count + 1),
        streaming_request_count: s.streaming_request_count,
        first_request_at: if s.request_count == 0 { now } else { s.first_request_at },
        last_updated: now,
    }
}

/// The counters after a streaming request (no token usage) at `now`.
pub open spec fn with_streaming(s: TokenStats, now: i64) -> TokenStats {
    TokenStats {
        streaming_request_count: sat(s.streaming_request_count + 1),
        request_count: sat(s.request_count + 1),
        first_request_at: if s.request_count == 0 { now } else { s.first_request_at },
        last_updated: now,
        ..s
    }
}

/// All counters zero.
pub open spec fn zero_stats() -> TokenStats {
    TokenStats {
        prompt_tokens: 0,
        completion_tokens: 0,
        total_tokens: 0,
        request_count: 0,
        streaming_request_count: 0,
        first_request_at: 0,
        last_updated: 0,
    }
}

impl TokenStats {
    /// All counters zero.
    pub fn new() -> (r: Self)
        ensures
            r == zero_stats(),
    {
        TokenStats {
            prompt_tokens: 0,
            completion_tokens: 0,
            total_tokens: 0,
            request_count: 0,
            streaming_request_count: 0,
            first_request_at: 0,
            last_updated: 0,
        }
    }

    /// Counts a request with token usage (saturating).
    pub fn add(&mut self, prompt: u64, completion: u64, now: i64)
        requires
            prompt + completion <= u64::MAX,
        ensures
            *final(self) == with_usage(*old(self), prompt, completion, now),
    {
        if self.request_count == 0 {
            self.first_request_at = now;
        }
        self.prompt_tokens = self.prompt_tokens.saturating_add(prompt);
        self.completion_tokens = self.completion_tokens.saturating_add(completion);
        self.total_tokens = self.total_tokens.saturating_add(prompt + completion);
        self.request_count = self.request_count.saturating_add(1);
        self.last_updated = now;
    }

    /// Counts a streaming request (saturating).
    pub fn add_streaming(&mut self, now: i64)
        ensures
            *final(self) == with_streaming(*old(self), now),
    {
        if self.request_count == 0 {
            self.first_request_at = now;
        }
        self.streaming_request_count = self.streaming_request_count.saturating_add(1);
        self.request_count = self.request_count.saturating_add(1);
        self.last_updated = now;
    }
}

/// The aggregate counters and those of each platform, with the save throttle.
#[derive(Debug, Clone)]
pub struct TokenStatsStore {
    pub aggregate: TokenStats,
    /// Per-platform counters; each platform occurs once.
    pub per_platform: Vec<(String, TokenStats)>,
    /// When the counters were last saved (Unix seconds; 0: never).
    pub last_saved: i64,
}

/// Each platform occurs at most once.
pub open spec fn distinct_platforms(v: Seq<(String, TokenStats)>) -> bool {
    forall|i: int, j: int| 0 <= i < j < v.len() ==> (#[trigger] v[i]).0@ != (#[trigger] v[j]).0@
}

impl TokenStatsStore {
    /// Well-formedness: each platform occurs once.
    pub open spec fn wf(&self) -> bool {
        distinct_platforms(self.per_platform@)
    }

    /// Empty counters, never saved.
    pub fn new() -> (r: Self)
        ensures
            r.wf(),
            r.aggregate == zero_stats(),
            r.per_platform@.len() == 0,
            r.last_saved == 0,
    {
        TokenStatsStore { aggregate: TokenStats::new(), per_platform: Vec::new(), last_saved: 0 }
    }
}

/// The counters of a platform, when it has any.
pub open spec fn platform_stats(v: Seq<(String, TokenStats)>, platform_id: Seq<char>) -> Option<TokenStats> {
    if exists|i: int| 0 <= i < v.len() && (#[trigger] v[i]).0@ == platform_id {
        Some(v[choose|i: int| 0 <= i < v.len() && (#[trigger] v[i]).0@ == platform_id].1)
    } else {
        None
    }
}

/// The per-platform counters after applying `f` to the platform's counters
/// (zero counters for a new platform, added at the end).
pub open spec fn updated_platform(v: Seq<(String, TokenStats)>, platform_id: Seq<char>, f: spec_fn(TokenStats) -> TokenStats) -> Map<Seq<char>, TokenStats> {
    let m = platform_map(v);
    m.insert(platform_id, f(if m.contains_key(platform_id) { m[platform_id] } else { zero_stats() }))
}

/// The per-platform counters as a map from platform id.
pub open spec fn platform_map(v: Seq<(String, TokenStats)>) -> Map<Seq<char>, TokenStats> {
    Map::new(|k: Seq<char>| platform_stats(v, k) is Some, |k: Seq<char>| platform_stats(v, k).unwrap())
}

/// Whether a save is due at `now`.
pub open spec fn save_due(last_saved: i64, now: i64) -> bool {
    now - last_saved >= SAVE_THROTTLE_SECS
}

fn find_platform(v: &Vec<(String, TokenStats)>, platform_id: &str) -> (r: Option<usize>)
    ensures
        match r {
            Some(i) => i < v@.len() && v@[i as int].0@ == platform_id@,
            None => forall|i: int| 0 <= i < v@.len() ==> (#[trigger] v@[i]).0@ != platform_id@,
        },
{
    let pid = owned(platform_id);
    let mut i: usize = 0;
    while i < v.len()
        invariant
            i <= v.len(),
            pid@ == platform_id@,
            forall|j: int| 0 <= j < i ==> (#[trigger] v@[j]).0@ != platform_id@,
        decreases v.len() - i,
    {
        if v[i].0 == pid {
            return Some(i);
        }
        i += 1;
    }
    None
}

proof fn lemma_platform_map_update(v: Seq<(String, TokenStats)>, i: int, s: TokenStats)
    requires
        distinct_platforms(v),
        0 <= i < v.len(),
    ensures
        distinct_platforms(v.update(i, (v[i].0, s))),
        platform_map(v.update(i, (v[i].0, s))) == platform_map(v).insert(v[i].0@, s),
        platform_map(v).contains_key(v[i].0@) && platform_map(v)[v[i].0@] == v[i].1,
{
    let w = v.update(i, (v[i].0, s));
    assert(platform_stats(v, v[i].0@) == Some(v[i].1)) by {
        let c = choose|c: int| 0 <= c < v.len() && (#[trigger] v[c]).0@ == v[i].0@;
        if c != i {
            if c < i { assert(v[c].0@ != v[i].0@); } else { assert(v[i].0@ != v[c].0@); }
        }
    }
    assert forall|k: Seq<char>| #[trigger] platform_stats(w, k) == (if k == v[i].0@ { Some(s) } else { platform_stats(v, k) }) by {
        if k == v[i].0@ {
            assert(w[i].0@ == k);
            let c = choose|c: int| 0 <= c < w.len() && (#[trigger] w[c]).0@ == k;
            if c != i {
                if c < i { assert(v[c].0@ != v[i].0@); } else { assert(v[i].0@ != v[c].0@); }
            }
        } else {
            if exists|c: int| 0 <= c < v.len() && (#[trigger] v[c]).0@ == k {
                let c = choose|c: int| 0 <= c < v.len() && (#[trigger] v[c]).0@ == k;
                assert(w[c].0@ == k);
            }
            if exists|c: int| 0 <= c < w.len() && (#[trigger] w[c]).0@ == k {
                let c = choose|c: int| 0 <= c < w.len() && (#[trigger] w[c]).0@ == k;
                assert(v[c].0@ == k);
            }
        }
    }
    assert(platform_map(w) =~= platform_map(v).insert(v[i].0@, s));
}

proof fn lemma_platform_map_push(v: Seq<(String, TokenStats)>, p: String, s: TokenStats)
    requires
        distinct_platforms(v),
        forall|i: int| 0 <= i < v.len() ==> (#[trigger] v[i]).0@ != p@,
    ensures
        distinct_platforms(v.push((p, s))),
        platform_map(v.push((p, s))) == platform_map(v).insert(p@, s),
        !platform_map(v).contains_key(p@),
{
    let w = v.push((p, s));
    assert forall|k: Seq<char>| #[trigger] platform_stats(w, k) == (if k == p@ { Some(s) } else { platform_stats(v, k) }) by {
        if k == p@ {
            assert(w[v.len() as int].0@ == k);
            let c = choose|c: int| 0 <= c < w.len() && (#[trigger] w[c]).0@ == k;
            if c < v.len() {
                assert(v[c].0@ != p@);
            }
        } else {
            if exists|c: int| 0 <= c < v.len() && (#[trigger] v[c]).0@ == k {
                let c = choose|c: int| 0 <= c < v.len() && (#[trigger] v[c]).0@ == k;
                assert(w[c].0@ == k);
            }
            if exists|c: int| 0 <= c < w.len() && (#[trigger] w[c]).0@ == k {
                let c = choose|c: int| 0 <= c < w.len() && (#[trigger] w[c]).0@ == k;
                assert(v[c].0@ == k);
            }
        }
    }
    assert(platform_map(w) =~= platform_map(v).insert(p@, s));
}

/// Applies a request with token usage at `now` to the aggregate and, when
/// given, the platform's counters; true when a save is due (and then the save
/// time becomes `now`).
pub fn record_usage_for_platform_at(
    store: &mut TokenStatsStore,
    platform_id: Option<&str>,
    prompt: u64,
    completion: u64,
    now: i64,
) -> (save: bool)
    requires
        old(store).wf(),
        prompt + completion <= u64::MAX,
    ensures
        final(store).wf(),
        final(store).aggregate == with_usage(old(store).aggregate, prompt, completion, now),
        platform_map(final(store).per_platform@) == match platform_id {
            Some(p) => updated_platform(old(store).per_platform@, p@, |s: TokenStats| with_usage(s, prompt, completion, now)),
            None => platform_map(old(store).per_platform@),
        },
        save == save_due(old(store).last_saved, now),
        final(store).last_saved == if save { now } else { old(store).last_saved },
{
    store.aggregate.add(prompt, completion, now);
    if let Some(pid) = platform_id {
        let ghost f = |s: TokenStats| with_usage(s, prompt, completion, now);
        match find_platform(&store.per_platform, pid) {
            Some(i) => {
                let mut s = store.per_platform[i].1;
                s.add(prompt, completion, now);
                let name = store.per_platform[i].0.clone();
                proof {
                    lemma_platform_map_update(store.per_platform@, i as int, s);
                }
                store.per_platform.set(i, (name, s));
            },
            None => {
                let mut s = TokenStats::new();
                s.add(prompt, completion, now);
                let name = owned(pid);
                proof {
                    lemma_platform_map_push(store.per_platform@, name, s);
                }
                store.per_platform.push((name, s));
            },
        }
    }
    let save = (now as i128) - (store.last_saved as i128) >= (SAVE_THROTTLE_SECS as i128);
    if save {
        store.last_saved = now;
    }
    save
}

/// Applies a streaming request at `now` to the aggregate and, when given, the
/// platform's counters; true when a save is due (and then the save time becomes `now`).
pub fn record_streaming_for_platform_at(store: &mut TokenStatsStore, platform_id: Option<&str>, now: i64) -> (save: bool)
    requires
        old(store).wf(),
    ensures
        final(store).wf(),
        final(store).aggregate == with_streaming(old(store).aggregate, now),
        platform_map(final(store).per_platform@) == match platform_id {
            Some(p) => updated_platform(old(store).per_platform@, p@, |s: TokenStats| with_streaming(s, now)),
            None => platform_map(old(store).per_platform@),
        },
        save == save_due(old(store).last_saved, now),
        final(store).last_saved == if save { now } else { old(store).last_saved },
{
    store.aggregate.add_streaming(now);
    if let Some(pid) = platform_id {
        match find_platform(&store.per_platform, pid) {
            Some(i) => {
                let mut s = store.per_platform[i].1;
                s.add_streaming(now);
                let name = store.per_platform[i].0.clone();
                proof {
                    lemma_platform_map_update(store.per_platform@, i as int, s);
                }
                store.per_platform.set(i, (name, s));
            },
            None => {
                let mut s = TokenStats::new();
                s.add_streaming(now);
                let name = owned(pid);
                proof {
                    lemma_platform_map_push(store.per_platform@, name, s);
                }
                store.per_platform.push((name, s));
            },
        }
    }
    let save = (now as i128) - (store.last_saved as i128) >= (SAVE_THROTTLE_SECS as i128);
    if save {
        store.last_saved = now;
    }
    save
}

/// Counts a request with token usage now (see [`record_usage_for_platform_at`]).
pub fn record_usage_for_platform(store: &mut TokenStatsStore, platform_id: Option<&str>, prompt: u64, completion: u64) -> (save: bool)
    requires
        old(store).wf(),
        prompt + completion <= u64::MAX,
    ensures
        final(store).wf(),
        exists|now: i64| clock_range(now as int) && #[trigger] with_usage(old(store).aggregate, prompt, completion, now) == final(store).aggregate
            && platform_map(final(store).per_platform@) == match platform_id {
                Some(p) => updated_platform(old(store).per_platform@, p@, |s: TokenStats| with_usage(s, prompt, completion, now)),
                None => platform_map(old(store).per_platform@),
            }
            && save == save_due(old(store).last_saved, now)
            && final(store).last_saved == if save { now } else { old(store).last_saved },
{
    let now = clock::now_unix_seconds();
    record_usage_for_platform_at(store, platform_id, prompt, completion, now)
}

/// Counts a streaming request now (see [`record_streaming_for_platform_at`]).
pub fn record_streaming_for_platform(store: &mut TokenStatsStore, platform_id: Option<&str>) -> (save: bool)
    requires
        old(store).wf(),
    ensures
        final(store).wf(),
        exists|now: i64| clock_range(now as int) && #[trigger] with_streaming(old(store).aggregate, now) == final(store).aggregate
            && platform_map(final(store).per_platform@) == match platform_id {
                Some(p) => updated_platform(old(store).per_platform@, p@, |s: TokenStats| with_streaming(s, now)),
                None => platform_map(old(store).per_platform@),
            }
            && save == save_due(old(store).last_saved, now)
            && final(store).last_saved == if save { now } else { old(store).last_saved },
{
    let now = clock::now_unix_seconds();
    record_streaming_for_platform_at(store, platform_id, now)
}

/// A snapshot of the aggregate counters.
pub fn get_summary(store: &TokenStatsStore) -> (r: TokenStats)
    ensures
        r == store.aggregate,
{
    store.aggregate
}

/// A snapshot of the per-platform counters.
pub fn get_platform_summary(store: &TokenStatsStore) -> (r: Vec<(String, TokenStats)>)
    ensures
        r@ == store.per_platform@,
{
    let mut out: Vec<(String, TokenStats)> = Vec::new();
    let mut i: usize = 0;
    while i < store.per_platform.len()
        invariant
            i <= store.per_platform.len(),
            out@ == store.per_platform@.take(i as int),
        decreases store.per_platform.len() - i,
    {
        out.push((store.per_platform[i].0.clone(), store.per_platform[i].1));
        i += 1;
        assert(out@ =~= store.per_platform@.take(i as int));
    }
    assert(store.per_platform@.take(i as int) =~= store.per_platform@);
    out
}

/// Clears every counter; the next count saves at once.
pub fn reset(store: &mut TokenStatsStore)
    ensures
        final(store).wf(),
        final(store).aggregate == zero_stats(),
        final(store).per_platform@.len() == 0,
        final(store).last_saved == 0,
{
    *store = TokenStatsStore::new();
}

} // verus!
