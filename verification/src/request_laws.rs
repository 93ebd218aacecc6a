//! Properties of request routing, key selection and quota filtering that hold
//! for every configuration, store and time.

use vstd::prelude::*;
use crate::key_model_map::{keys_of, KeyModelEntry};
use crate::keystore::of_platform;
use crate::models::{ApiKey, AppConfig, Model};
use crate::proxy::{
    active_at_time, active_key_ids, among, candidate_keys, key_ids, keys_to_try, prefix_is_spec, requested_model_id, responses_path,
    route_of, split_route,
};
use crate::quota_window::{
    expire, key_passes, limits_of, passing, tracker_index, TrackerView, DAY_SECS, FIVE_HOURS_SECS, MONTH_SECS,
};
use crate::sorting::{first_where, keep, lemma_first_where_props, lemma_keep_props, lemma_sort_contains, sort_by_order};
use crate::text::{has_prefix, strip_leading};

verus! {

/// Whether the tracker may serve the model at `now`: not in a server-error
/// back-off, and no window, cleaned at `now`, holding more calls than its
/// non-zero limit.
pub open spec fn within_quota(t: TrackerView, now: int, models: Seq<Model>) -> bool {
    let l = limits_of(models, t.model_id, t.platform_id);
    &&& match t.disabled_until {
        Some(until) => now >= until,
        None => true,
    }
    &&& (l.max_per_5hrs == 0 || (expire(t.five_hour, now - FIVE_HOURS_SECS).len() as u32) <= l.max_per_5hrs)
    &&& (l.max_per_day == 0 || (expire(t.day, now - DAY_SECS).len() as u32) <= l.max_per_day)
    &&& (l.max_per_month == 0 || (expire(t.month, now - MONTH_SECS).len() as u32) <= l.max_per_month)
}

/// Whether a candidate key may serve the model: it has no tracker for the
/// model, or its tracker is within quota.
pub open spec fn may_serve(ts: Seq<TrackerView>, key_id: Seq<char>, model_id: Seq<char>, now: int, models: Seq<Model>) -> bool {
    match tracker_index(ts, key_id, model_id) {
        None => true,
        Some(i) => within_quota(ts[i], now, models),
    }
}

proof fn lemma_passes(ts: Seq<TrackerView>, key_id: Seq<char>, model_id: Seq<char>, now: int, models: Seq<Model>)
    ensures
        key_passes(ts, key_id, model_id, now, models) == may_serve(ts, key_id, model_id, now, models),
{
}

/// Filtering candidates by quota keeps exactly the candidates that may serve
/// the model (see [`may_serve`]), in their order: a key over a non-zero limit
/// in any window, or backing off after server errors, is never kept, and
/// every other candidate is.
pub proof fn law_filter_keeps_exactly_available(
    cands: Seq<Seq<char>>,
    ts: Seq<TrackerView>,
    model_id: Seq<char>,
    now: int,
    models: Seq<Model>,
)
    ensures
        forall|j: int| 0 <= j < passing(cands, ts, model_id, now, models).len() ==>
            cands.contains(#[trigger] passing(cands, ts, model_id, now, models)[j])
            && may_serve(ts, passing(cands, ts, model_id, now, models)[j], model_id, now, models),
        forall|k: Seq<char>| cands.contains(k) && may_serve(ts, k, model_id, now, models) ==>
            #[trigger] passing(cands, ts, model_id, now, models).contains(k),
        passing(cands, ts, model_id, now, models).len() <= cands.len(),
    decreases cands.len(),
{
    let p = passing(cands, ts, model_id, now, models);
    if cands.len() > 0 {
        let d = cands.drop_last();
        let x = cands.last();
        law_filter_keeps_exactly_available(d, ts, model_id, now, models);
        let pd = passing(d, ts, model_id, now, models);
        lemma_passes(ts, x, model_id, now, models);
        assert forall|j: int| 0 <= j < p.len() implies cands.contains(#[trigger] p[j]) && may_serve(ts, p[j], model_id, now, models) by {
            if j < pd.len() {
                assert(p[j] == pd[j]);
                assert(d.contains(pd[j]));
                let m = choose|m: int| 0 <= m < d.len() && d[m] == pd[j];
                assert(cands[m] == d[m]);
            } else {
                assert(p[j] == x);
                assert(cands[cands.len() - 1] == x);
            }
        }
        assert forall|k: Seq<char>| cands.contains(k) && may_serve(ts, k, model_id, now, models) implies #[trigger] p.contains(k) by {
            let m = choose|m: int| 0 <= m < cands.len() && cands[m] == k;
            if m < cands.len() - 1 {
                assert(d[m] == k);
                assert(d.contains(k));
                assert(pd.contains(k));
                let q = choose|q: int| 0 <= q < pd.len() && pd[q] == k;
                if key_passes(ts, x, model_id, now, models) {
                    assert(p[q] == k);
                }
            } else {
                assert(k == x);
                lemma_passes(ts, k, model_id, now, models);
                assert(p[p.len() - 1] == k);
            }
        }
    }
}

/// Whether `k` is the id of a key of the platform that is active at `now`.
pub open spec fn is_active_key(keys: Seq<ApiKey>, platform_id: Seq<char>, now: int, k: Seq<char>) -> bool {
    exists|a: ApiKey| #[trigger] keys.contains(a) && a.id@ == k && a.platform_id@ == platform_id && a.active_at(now)
}

/// Whether the key `k` is mapped to the model.
pub open spec fn is_mapped(mappings: Seq<KeyModelEntry>, model_id: Seq<char>, k: Seq<char>) -> bool {
    exists|e: KeyModelEntry| #[trigger] mappings.contains(e) && e.key_id@ == k && e.model_id@ == model_id
}

proof fn lemma_mapped(mappings: Seq<KeyModelEntry>, model_id: Seq<char>, k: Seq<char>)
    requires
        keys_of(mappings, model_id).contains(k),
    ensures
        is_mapped(mappings, model_id, k),
    decreases mappings.len(),
{
    let d = mappings.drop_last();
    let ko = keys_of(d, model_id);
    if mappings.last().model_id@ == model_id && mappings.last().key_id@ == k {
        assert(mappings.contains(mappings[mappings.len() - 1]));
    } else {
        if mappings.last().model_id@ == model_id {
            let j = choose|j: int| 0 <= j < keys_of(mappings, model_id).len() && keys_of(mappings, model_id)[j] == k;
            assert(j < ko.len());
            assert(ko[j] == k);
        }
        assert(ko.contains(k));
        lemma_mapped(d, model_id, k);
        let e = choose|e: KeyModelEntry| #[trigger] d.contains(e) && e.key_id@ == k && e.model_id@ == model_id;
        assert(d.contains(e));
        let j = choose|j: int| 0 <= j < d.len() && d[j] == e;
        assert(mappings[j] == e);
        assert(mappings.contains(e));
    }
}

proof fn lemma_active_ids(keys: Seq<ApiKey>, platform_id: Seq<char>, now: int, k: Seq<char>)
    requires
        active_key_ids(keys, platform_id, now).contains(k),
    ensures
        is_active_key(keys, platform_id, now, k),
{
    let mine = keep(keys, of_platform(platform_id));
    let sorted = sort_by_order(mine);
    let act = keep(sorted, active_at_time(now));
    let ids = key_ids(act);
    let j = choose|j: int| 0 <= j < ids.len() && ids[j] == k;
    let a = act[j];
    assert(act.contains(a));
    lemma_keep_props(sorted, active_at_time(now));
    assert(sorted.contains(a));
    lemma_sort_contains(mine, a);
    lemma_keep_props(keys, of_platform(platform_id));
    assert(keys.contains(a));
    assert(a.active_at(now));
}

/// Every key offered for a request is an active key of the request's
/// platform (a manually disabled key, or one still in its cool-down, is never
/// offered); when the requested model has keys mapped to it, every key
/// offered is one of them; and a key is offered only if its quota tracker
/// for the model, if any, is within quota.
pub proof fn law_keys_to_try_are_active(
    keys: Seq<ApiKey>,
    models: Seq<Model>,
    mappings: Seq<KeyModelEntry>,
    trackers: Seq<TrackerView>,
    platform_id: Seq<char>,
    model_name: Option<String>,
    now: int,
)
    ensures
        forall|j: int| 0 <= j < keys_to_try(keys, models, mappings, trackers, platform_id, model_name, now).len() ==>
            is_active_key(keys, platform_id, now, #[trigger] keys_to_try(keys, models, mappings, trackers, platform_id, model_name, now)[j]),
        forall|j: int| 0 <= j < keys_to_try(keys, models, mappings, trackers, platform_id, model_name, now).len() ==>
            match requested_model_id(models, platform_id, model_name) {
                Some(m) => may_serve(trackers, #[trigger] keys_to_try(keys, models, mappings, trackers, platform_id, model_name, now)[j], m, now, models)
                    && (keys_of(mappings, m).len() > 0 ==> is_mapped(mappings, m, keys_to_try(keys, models, mappings, trackers, platform_id, model_name, now)[j])),
                None => true,
            },
{
    let r = keys_to_try(keys, models, mappings, trackers, platform_id, model_name, now);
    let mid = requested_model_id(models, platform_id, model_name);
    let active = active_key_ids(keys, platform_id, now);
    let cands = candidate_keys(keys, mappings, platform_id, mid, now);
    // Every candidate is an active key, and a mapped one when the model has mapped keys.
    assert forall|k: Seq<char>| cands.contains(k) implies active.contains(k) && match mid {
        Some(m) => keys_of(mappings, m).len() > 0 ==> keys_of(mappings, m).contains(k),
        None => true,
    } by {
        match mid {
            Some(m) => if keys_of(mappings, m).len() > 0 {
                lemma_keep_props(keys_of(mappings, m), among(active));
            },
            None => {},
        }
    }
    match mid {
        Some(m) => {
            law_filter_keeps_exactly_available(cands, trackers, m, now, models);
        },
        None => {},
    }
    assert forall|j: int| 0 <= j < r.len() implies cands.contains(#[trigger] r[j]) && match mid {
        Some(m) => may_serve(trackers, r[j], m, now, models),
        None => true,
    } by {
        match mid {
            Some(m) => {},
            None => {
                assert(cands.contains(cands[j]));
            },
        }
    }
    assert forall|j: int| 0 <= j < r.len() implies is_active_key(keys, platform_id, now, #[trigger] r[j]) by {
        assert(cands.contains(r[j]));
        lemma_active_ids(keys, platform_id, now, r[j]);
    }
    assert forall|j: int| 0 <= j < r.len() implies match mid {
        Some(m) => may_serve(trackers, #[trigger] r[j], m, now, models)
            && (keys_of(mappings, m).len() > 0 ==> is_mapped(mappings, m, r[j])),
        None => true,
    } by {
        assert(cands.contains(r[j]));
        match mid {
            Some(m) => {
                if keys_of(mappings, m).len() > 0 {
                    lemma_mapped(mappings, m, r[j]);
                }
            },
            None => {},
        }
    }
}

/// A request routed as a Responses API call is always forwarded to the
/// upstream's Chat Completions path, never to its Responses path.
pub proof fn law_responses_forwarded_to_chat(config: AppConfig, path: Seq<char>, query: Option<Seq<char>>)
    ensures
        match route_of(config, path, query) {
            Some((_base, _pid, _prefix, _auto, target, is_resp)) => is_resp ==> {
                &&& has_prefix(target, "/v1/chat/completions"@)
                &&& !has_prefix(target, "/v1/responses"@)
            },
            None => true,
        },
{
    reveal_strlit("/v1/chat/completions");
    reveal_strlit("/v1/responses");
    reveal_strlit("/v1/responses/");
    match route_of(config, path, query) {
        Some((_base, _pid, _prefix, _auto, target, is_resp)) => {
            if is_resp {
                let (prefix, rest) = split_route(path);
                let t = if first_where(config.platforms@, prefix_is_spec(prefix)) is Some {
                    rest
                } else {
                    seq!['/'] + strip_leading(path, '/')
                };
                assert(responses_path(t));
                assert(target == "/v1/chat/completions"@ + t.skip(13));
                assert(target.subrange(0, 20) =~= "/v1/chat/completions"@);
                assert(target[4] == 'c');
                assert("/v1/responses"@[4] == 'r');
            }
        },
        None => {},
    }
}

/// `/<prefix>/v1/responses` (with any further path) on a configured platform
/// prefix is forwarded to `/v1/chat/completions` (with the same further path)
/// of that platform, as a Responses API call.
pub proof fn law_responses_path_routed(config: AppConfig, prefix: Seq<char>, suffix: Seq<char>, query: Option<Seq<char>>)
    requires
        prefix.len() > 0,
        !prefix.contains('/'),
        suffix.len() == 0 || suffix[0] == '/',
        first_where(config.platforms@, prefix_is_spec(prefix)) is Some,
    ensures
        match route_of(config, seq!['/'] + prefix + "/v1/responses"@ + suffix, query) {
            Some((_base, pid, p, _auto, target, is_resp)) => {
                &&& p == prefix
                &&& pid == config.platforms@[first_where(config.platforms@, prefix_is_spec(prefix))->0].id@
                &&& target == "/v1/chat/completions"@ + suffix
                &&& is_resp
            },
            None => false,
        },
{
    reveal_strlit("/v1/chat/completions");
    reveal_strlit("/v1/responses");
    reveal_strlit("/v1/responses/");
    let rr = "/v1/responses"@ + suffix;
    let x = prefix + rr;
    let path = seq!['/'] + prefix + "/v1/responses"@ + suffix;
    assert(path == seq!['/'] + x);
    assert(prefix.contains(prefix[0]));
    assert(x[0] == prefix[0]);
    assert((seq!['/'] + x).drop_first() =~= x);
    assert(strip_leading(x, '/') == x);
    assert(strip_leading(path, '/') == x);
    let f = |c: char| c == '/';
    lemma_first_where_props(x, f);
    assert(x[prefix.len() as int] == '/');
    assert forall|j: int| 0 <= j < prefix.len() implies !f(#[trigger] x[j]) by {
        assert(x[j] == prefix[j]);
        assert(prefix.contains(prefix[j]));
    }
    match first_where(x, f) {
        Some(k) => {
            if k < prefix.len() {
                assert(!f(x[k]));
            } else if k > prefix.len() {
                assert(f(x[prefix.len() as int]));
            }
        },
        None => {
            assert(f(x[prefix.len() as int]));
        },
    }
    assert(x.take(prefix.len() as int) =~= prefix);
    assert(x.skip(prefix.len() as int) =~= rr);
    assert(split_route(path) == (prefix, rr));
    if suffix.len() == 0 {
        assert(rr =~= "/v1/responses"@);
    } else {
        assert(rr.subrange(0, 14) =~= "/v1/responses/"@);
    }
    assert(responses_path(rr));
    assert(rr.skip(13) =~= suffix);
}

} // verus!
