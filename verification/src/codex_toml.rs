//! Codex's `config.toml` as plain data: parsed and printed by the `toml`
//! crate, read and merged here.

use vstd::prelude::*;
use crate::codex_integration::{local_base_url, settings_view, CodexConfigPlan, SettingView, TomlSetting};
use crate::sorting::{first_where, lemma_first_where, lemma_first_where_props};
use crate::text::owned;

verus! {

/// A TOML value. Floats and date-times are held as the text `toml` gives them.
#[derive(Debug)]
pub enum TomlValue {
    Str(String),
    Int(i64),
    Float(String),
    Bool(bool),
    Datetime(String),
    Array(Vec<TomlValue>),
    Table(Vec<(String, TomlValue)>),
}

#[verifier::external_type_specification]
#[verifier::external_body]
pub struct ExTomlValue(toml::Value);

/// A TOML value as plain data.
pub enum TomlV {
    Str(Seq<char>),
    Int(i64),
    Float(Seq<char>),
    Bool(bool),
    Datetime(Seq<char>),
    Array(Seq<TomlV>),
    Table(Seq<(Seq<char>, TomlV)>),
}

/// The plain value of a TOML value.
pub open spec fn tv(v: TomlValue) -> TomlV
    decreases v,
{
    match v {
        TomlValue::Str(s) => TomlV::Str(s@),
        TomlValue::Int(n) => TomlV::Int(n),
        TomlValue::Float(t) => TomlV::Float(t@),
        TomlValue::Bool(b) => TomlV::Bool(b),
        TomlValue::Datetime(t) => TomlV::Datetime(t@),
        TomlValue::Array(a) => TomlV::Array(tv_seq(a@)),
        TomlValue::Table(es) => TomlV::Table(tv_members(es@)),
    }
}

/// The plain values of a list of TOML values.
pub open spec fn tv_seq(s: Seq<TomlValue>) -> Seq<TomlV>
    decreases s,
{
    if s.len() == 0 {
        Seq::empty()
    } else {
        tv_seq(s.drop_last()).push(tv(s.last()))
    }
}

/// The plain values of a table's entries.
pub open spec fn tv_members(s: Seq<(String, TomlValue)>) -> Seq<(Seq<char>, TomlV)>
    decreases s,
{
    if s.len() == 0 {
        Seq::empty()
    } else {
        tv_members(s.drop_last()).push((s.last().0@, tv(s.last().1)))
    }
}

/// The plain entries are the entries' keys and plain values, one for one.
pub proof fn lemma_tv_members(s: Seq<(String, TomlValue)>)
    ensures
        tv_members(s).len() == s.len(),
        forall|i: int| 0 <= i < s.len() ==> #[trigger] tv_members(s)[i] == (s[i].0@, tv(s[i].1)),
    decreases s.len(),
{
    if s.len() > 0 {
        lemma_tv_members(s.drop_last());
        assert forall|i: int| 0 <= i < s.len() implies #[trigger] tv_members(s)[i] == (s[i].0@, tv(s[i].1)) by {
            if i < s.len() - 1 {
                assert(s.drop_last()[i] == s[i]);
            }
        }
    }
}

/// The plain values of a list are its elements' plain values, one for one.
pub proof fn lemma_tv_seq(s: Seq<TomlValue>)
    ensures
        tv_seq(s).len() == s.len(),
        forall|i: int| 0 <= i < s.len() ==> #[trigger] tv_seq(s)[i] == tv(s[i]),
    decreases s.len(),
{
    if s.len() > 0 {
        lemma_tv_seq(s.drop_last());
        assert forall|i: int| 0 <= i < s.len() implies #[trigger] tv_seq(s)[i] == tv(s[i]) by {
            if i < s.len() - 1 {
                assert(s.drop_last()[i] == s[i]);
            }
        }
    }
}

// ── Parsing and printing ──

/// What `toml` makes of a text parsed as a `toml::Table`: the table's
/// entries, or the text of the error.
pub uninterp spec fn toml_parsed(text: Seq<char>) -> Result<Seq<(Seq<char>, TomlV)>, Seq<char>>;

/// What `toml::to_string_pretty` makes of a table with these entries: the
/// text, or the text of the error.
pub uninterp spec fn toml_printed(doc: Seq<(Seq<char>, TomlV)>) -> Result<Seq<char>, Seq<char>>;

/// A parsed document.
pub open spec fn parsed_doc(d: Seq<(Seq<char>, TomlV)>) -> Result<Seq<(Seq<char>, TomlV)>, Seq<char>> {
    Ok(d)
}

/// A parse error's text.
pub open spec fn parse_error(e: Seq<char>) -> Result<Seq<(Seq<char>, TomlV)>, Seq<char>> {
    Err(e)
}

/// A printed text.
pub open spec fn printed_text(t: Seq<char>) -> Result<Seq<char>, Seq<char>> {
    Ok(t)
}

/// A print error's text.
pub open spec fn print_error(e: Seq<char>) -> Result<Seq<char>, Seq<char>> {
    Err(e)
}

/// The document to write into: the existing text parsed, or an empty one.
pub open spec fn existing_doc(existing: Option<Seq<char>>) -> Result<Seq<(Seq<char>, TomlV)>, Seq<char>> {
    match existing {
        Some(t) => toml_parsed(t),
        None => parsed_doc(Seq::empty()),
    }
}

#[verifier::external_body]
fn from_toml(v: &toml::Value) -> TomlValue {
    match v {
        toml::Value::String(s) => TomlValue::Str(s.clone()),
        toml::Value::Integer(n) => TomlValue::Int(*n),
        toml::Value::Float(f) => TomlValue::Float(f.to_string()),
        toml::Value::Boolean(b) => TomlValue::Bool(*b),
        toml::Value::Datetime(d) => TomlValue::Datetime(d.to_string()),
        toml::Value::Array(a) => TomlValue::Array(a.iter().map(from_toml).collect()),
        toml::Value::Table(t) => TomlValue::Table(t.iter().map(|(k, x)| (k.clone(), from_toml(x))).collect()),
    }
}

#[verifier::external_body]
fn float_value(t: &String) -> toml::Value {
    match t.parse() {
        Ok(f) => toml::Value::Float(f),
        Err(_) => toml::Value::String(t.clone()),
    }
}

#[verifier::external_body]
fn datetime_value(t: &String) -> toml::Value {
    match t.parse() {
        Ok(d) => toml::Value::Datetime(d),
        Err(_) => toml::Value::String(t.clone()),
    }
}

#[verifier::external_body]
fn to_toml(v: &TomlValue) -> toml::Value {
    match v {
        TomlValue::Str(s) => toml::Value::String(s.clone()),
        TomlValue::Int(n) => toml::Value::Integer(*n),
        TomlValue::Float(t) => float_value(t),
        TomlValue::Bool(b) => toml::Value::Boolean(*b),
        TomlValue::Datetime(t) => datetime_value(t),
        TomlValue::Array(a) => toml::Value::Array(a.iter().map(to_toml).collect()),
        TomlValue::Table(es) => toml::Value::Table(es.iter().map(|(k, x)| (k.clone(), to_toml(x))).collect()),
    }
}

/// Parses a text as a TOML document.
///
/// Calls `str::parse::<toml::Table>` (`toml::from_str`) and converts the
/// table entry by entry; an error gives its `to_string()`. What a given text
/// parses into is named, not stated.
#[verifier::external_body]
pub fn parse_toml(text: &str) -> (r: Result<Vec<(String, TomlValue)>, String>)
    ensures
        r matches Ok(d) ==> toml_parsed(text@) == parsed_doc(tv_members(d@)),
        r matches Err(e) ==> toml_parsed(text@) == parse_error(e@),
{
    text.parse::<toml::Table>()
        .map(|t| t.iter().map(|(k, v)| (k.clone(), from_toml(v))).collect())
        .map_err(|e| e.to_string())
}

/// Prints a TOML document.
///
/// Converts the entries into a `toml::Table` (a later entry with the same key
/// replaces an earlier one) and calls `toml::to_string_pretty`; an error
/// gives its `to_string()`. The text for given entries is named, not stated.
#[verifier::external_body]
pub fn print_toml(doc: &Vec<(String, TomlValue)>) -> (r: Result<String, String>)
    ensures
        r matches Ok(s) ==> toml_printed(tv_members(doc@)) == printed_text(s@),
        r matches Err(e) ==> toml_printed(tv_members(doc@)) == print_error(e@),
{
    let t: toml::Table = doc.iter().map(|(k, v)| (k.clone(), to_toml(v))).collect();
    toml::to_string_pretty(&t).map_err(|e| e.to_string())
}

// ── Tables ──

/// Whether an entry has the key.
pub open spec fn key_is(k: Seq<char>) -> spec_fn((Seq<char>, TomlV)) -> bool {
    |e: (Seq<char>, TomlV)| e.0 == k
}

/// The value of the first entry with the key.
pub open spec fn tget(es: Seq<(Seq<char>, TomlV)>, k: Seq<char>) -> Option<TomlV> {
    match first_where(es, key_is(k)) {
        Some(i) => Some(es[i].1),
        None => None,
    }
}

/// The entries with `k` set to `v`, as `Table::insert` does it: the first
/// entry with the key takes the value, or the entry is added last.
pub open spec fn tset(es: Seq<(Seq<char>, TomlV)>, k: Seq<char>, v: TomlV) -> Seq<(Seq<char>, TomlV)> {
    match first_where(es, key_is(k)) {
        Some(i) => es.update(i, (k, v)),
        None => es.push((k, v)),
    }
}

/// The entries with each of `kvs` set in order.
pub open spec fn tset_all(es: Seq<(Seq<char>, TomlV)>, kvs: Seq<(Seq<char>, TomlV)>) -> Seq<(Seq<char>, TomlV)>
    decreases kvs.len(),
{
    if kvs.len() == 0 {
        es
    } else {
        tset(tset_all(es, kvs.drop_last()), kvs.last().0, kvs.last().1)
    }
}

/// The value of the last of `kvs` with the key.
pub open spec fn last_val(kvs: Seq<(Seq<char>, TomlV)>, k: Seq<char>) -> Option<TomlV>
    decreases kvs.len(),
{
    if kvs.len() == 0 {
        None
    } else if kvs.last().0 == k {
        Some(kvs.last().1)
    } else {
        last_val(kvs.drop_last(), k)
    }
}

/// Setting a key gives it the value and leaves every other key as it was.
pub proof fn lemma_tset(es: Seq<(Seq<char>, TomlV)>, k: Seq<char>, v: TomlV, other: Seq<char>)
    ensures
        tget(tset(es, k, v), k) == Some(v),
        other != k ==> tget(tset(es, k, v), other) == tget(es, other),
{
    let r = tset(es, k, v);
    lemma_first_where_props(es, key_is(k));
    lemma_first_where_props(r, key_is(k));
    lemma_first_where_props(es, key_is(other));
    lemma_first_where_props(r, key_is(other));
    match first_where(es, key_is(k)) {
        Some(i) => {
            match first_where(r, key_is(k)) {
                Some(j) => {
                    if j < i {
                        assert(r[j] == es[j]);
                    } else if j > i {
                        assert(key_is(k)(r[i]));
                    }
                },
                None => {
                    assert(key_is(k)(r[i]));
                },
            }
            if other != k {
                match first_where(es, key_is(other)) {
                    Some(a) => {
                        assert(a != i);
                        assert(r[a] == es[a]);
                        match first_where(r, key_is(other)) {
                            Some(b) => {
                                if b < a {
                                    assert(b != i);
                                    assert(r[b] == es[b]);
                                } else if b > a {
                                    assert(key_is(other)(r[a]));
                                }
                            },
                            None => {
                                assert(key_is(other)(r[a]));
                            },
                        }
                    },
                    None => {
                        match first_where(r, key_is(other)) {
                            Some(b) => {
                                if b != i {
                                    assert(r[b] == es[b]);
                                }
                            },
                            None => {},
                        }
                    },
                }
            }
        },
        None => {
            let n = es.len() as int;
            assert(r[n] == (k, v));
            match first_where(r, key_is(k)) {
                Some(j) => {
                    if j < n {
                        assert(r[j] == es[j]);
                    } else if j > n {
                        assert(false);
                    }
                },
                None => {
                    assert(key_is(k)(r[n]));
                },
            }
            if other != k {
                match first_where(es, key_is(other)) {
                    Some(a) => {
                        assert(r[a] == es[a]);
                        match first_where(r, key_is(other)) {
                            Some(b) => {
                                if b < a {
                                    assert(r[b] == es[b]);
                                } else if b > a {
                                    assert(key_is(other)(r[a]));
                                }
                            },
                            None => {
                                assert(key_is(other)(r[a]));
                            },
                        }
                    },
                    None => {
                        match first_where(r, key_is(other)) {
                            Some(b) => {
                                if b < n {
                                    assert(r[b] == es[b]);
                                }
                            },
                            None => {},
                        }
                    },
                }
            }
        },
    }
}

/// After setting `kvs` in order, a key has the value of the last of them that
/// sets it, and keeps its value when none does.
pub proof fn lemma_tset_all(es: Seq<(Seq<char>, TomlV)>, kvs: Seq<(Seq<char>, TomlV)>, k: Seq<char>)
    ensures
        tget(tset_all(es, kvs), k) == match last_val(kvs, k) {
            Some(v) => Some(v),
            None => tget(es, k),
        },
    decreases kvs.len(),
{
    if kvs.len() > 0 {
        lemma_tset_all(es, kvs.drop_last(), k);
        lemma_tset(tset_all(es, kvs.drop_last()), kvs.last().0, kvs.last().1, k);
    }
}

fn find_entry(es: &Vec<(String, TomlValue)>, key: &str) -> (r: Option<usize>)
    ensures
        match r {
            Some(i) => first_where(tv_members(es@), key_is(key@)) == Some(i as int) && i < es@.len(),
            None => first_where(tv_members(es@), key_is(key@)) is None,
        },
{
    let ghost f = key_is(key@);
    let ghost vs = tv_members(es@);
    proof {
        lemma_tv_members(es@);
    }
    let k = owned(key);
    let mut i: usize = 0;
    while i < es.len()
        invariant
            i <= es.len(),
            k@ == key@,
            f == key_is(key@),
            vs == tv_members(es@),
            vs.len() == es@.len(),
            forall|j: int| 0 <= j < es@.len() ==> #[trigger] vs[j] == (es@[j].0@, tv(es@[j].1)),
            first_where(vs.take(i as int), f) is None,
        decreases es.len() - i,
    {
        proof {
            lemma_first_where(vs, f, i as int);
        }
        if es[i].0 == k {
            assert(f(vs[i as int]));
            proof {
                lemma_first_where(vs, f, i + 1);
                lemma_first_where(vs, f, vs.len() as int);
            }
            return Some(i);
        }
        assert(!f(vs[i as int]));
        i += 1;
    }
    proof {
        lemma_first_where(vs, f, i as int);
    }
    None
}

/// The value of the first entry with the key.
pub fn toml_get<'a>(es: &'a Vec<(String, TomlValue)>, key: &str) -> (r: Option<&'a TomlValue>)
    ensures
        match r {
            Some(v) => tget(tv_members(es@), key@) == Some(tv(*v)),
            None => tget(tv_members(es@), key@) is None,
        },
{
    proof {
        lemma_tv_members(es@);
    }
    match find_entry(es, key) {
        Some(i) => Some(&es[i].1),
        None => None,
    }
}

/// Sets `key` to `v` (see [`tset`]).
pub fn toml_set(es: &mut Vec<(String, TomlValue)>, key: &str, v: TomlValue)
    ensures
        tv_members(final(es)@) == tset(tv_members(old(es)@), key@, tv(v)),
{
    proof {
        lemma_tv_members(old(es)@);
    }
    let k = owned(key);
    match find_entry(es, key) {
        Some(i) => {
            es.set(i, (k, v));
            proof {
                lemma_tv_members(es@);
                assert(tv_members(es@) =~= tv_members(old(es)@).update(i as int, (key@, tv(v))));
            }
        },
        None => {
            es.push((k, v));
            proof {
                assert(es@.drop_last() =~= old(es)@);
            }
        },
    }
}

/// A deep copy of a value.
pub fn copy_toml(v: &TomlValue) -> (r: TomlValue)
    ensures
        tv(r) == tv(*v),
    decreases v,
{
    match v {
        TomlValue::Str(s) => TomlValue::Str(s.clone()),
        TomlValue::Int(n) => TomlValue::Int(*n),
        TomlValue::Float(t) => TomlValue::Float(t.clone()),
        TomlValue::Bool(b) => TomlValue::Bool(*b),
        TomlValue::Datetime(t) => TomlValue::Datetime(t.clone()),
        TomlValue::Array(a) => {
            let mut out: Vec<TomlValue> = Vec::new();
            let mut i: usize = 0;
            while i < a.len()
                invariant
                    i <= a.len(),
                    *v == TomlValue::Array(*a),
                    tv_seq(out@) == tv_seq(a@.take(i as int)),
                decreases a.len() - i,
            {
                proof {
                    assert(decreases_to!(*v => (*v)->Array_0));
                    assert(decreases_to!(*a => a@));
                    assert(decreases_to!(a@ => a@[i as int]));
                    assert(decreases_to!(*v => a@[i as int]));
                }
                let x = copy_toml(&a[i]);
                let ghost b = out@;
                out.push(x);
                proof {
                    assert(out@.drop_last() =~= b);
                    assert(a@.take(i + 1).drop_last() =~= a@.take(i as int));
                }
                i += 1;
            }
            proof {
                assert(a@.take(i as int) =~= a@);
            }
            TomlValue::Array(out)
        },
        TomlValue::Table(es) => {
            let mut out: Vec<(String, TomlValue)> = Vec::new();
            let mut i: usize = 0;
            while i < es.len()
                invariant
                    i <= es.len(),
                    *v == TomlValue::Table(*es),
                    tv_members(out@) == tv_members(es@.take(i as int)),
                decreases es.len() - i,
            {
                proof {
                    assert(decreases_to!(*v => (*v)->Table_0));
                    assert(decreases_to!(*es => es@));
                    assert(decreases_to!(es@ => es@[i as int]));
                    assert(decreases_to!(es@[i as int] => es@[i as int].1));
                    assert(decreases_to!(*v => es@[i as int].1));
                }
                let x = copy_toml(&es[i].1);
                let k = es[i].0.clone();
                let ghost b = out@;
                out.push((k, x));
                proof {
                    assert(out@.drop_last() =~= b);
                    assert(es@.take(i + 1).drop_last() =~= es@.take(i as int));
                }
                i += 1;
            }
            proof {
                assert(es@.take(i as int) =~= es@);
            }
            TomlValue::Table(out)
        },
    }
}

/// A deep copy of a table's entries.
pub fn copy_entries(es: &Vec<(String, TomlValue)>) -> (r: Vec<(String, TomlValue)>)
    ensures
        tv_members(r@) == tv_members(es@),
{
    let mut out: Vec<(String, TomlValue)> = Vec::new();
    let mut i: usize = 0;
    while i < es.len()
        invariant
            i <= es.len(),
            tv_members(out@) == tv_members(es@.take(i as int)),
        decreases es.len() - i,
    {
        let x = copy_toml(&es[i].1);
        let k = es[i].0.clone();
        let ghost b = out@;
        out.push((k, x));
        proof {
            assert(out@.drop_last() =~= b);
            assert(es@.take(i + 1).drop_last() =~= es@.take(i as int));
        }
        i += 1;
    }
    proof {
        assert(es@.take(i as int) =~= es@);
    }
    out
}

// ── Codex configuration ──

/// The `model_providers.custom.base_url` of a configuration, when it is a text.
pub open spec fn custom_base_url_of(doc: Seq<(Seq<char>, TomlV)>) -> Option<Seq<char>> {
    match tget(doc, "model_providers"@) {
        Some(TomlV::Table(ps)) => match tget(ps, "custom"@) {
            Some(TomlV::Table(c)) => match tget(c, "base_url"@) {
                Some(TomlV::Str(u)) => Some(u),
                _ => None,
            },
            _ => None,
        },
        _ => None,
    }
}

/// The `model_providers.custom.base_url` of a configuration (see [`custom_base_url_of`]).
pub fn custom_base_url(doc: &Vec<(String, TomlValue)>) -> (r: Option<String>)
    ensures
        crate::diagnostics::chars_of(r) == custom_base_url_of(tv_members(doc@)),
{
    match toml_get(doc, "model_providers") {
        Some(TomlValue::Table(ps)) => match toml_get(ps, "custom") {
            Some(TomlValue::Table(c)) => match toml_get(c, "base_url") {
                Some(TomlValue::Str(u)) => Some(u.clone()),
                _ => None,
            },
            _ => None,
        },
        _ => None,
    }
}

/// Whether a configuration's custom provider points at this proxy.
pub open spec fn points_at_proxy(doc: Seq<(Seq<char>, TomlV)>) -> bool {
    match custom_base_url_of(doc) {
        Some(u) => local_base_url(u),
        None => false,
    }
}

/// A setting as a TOML value.
pub open spec fn setting_tv(s: SettingView) -> TomlV {
    match s {
        SettingView::Text(t) => TomlV::Str(t),
        SettingView::Flag(b) => TomlV::Bool(b),
    }
}

/// Settings as TOML entries.
pub open spec fn settings_tv(v: Seq<(Seq<char>, SettingView)>) -> Seq<(Seq<char>, TomlV)> {
    v.map_values(|e: (Seq<char>, SettingView)| (e.0, setting_tv(e.1)))
}

/// One model of Desktop's model list: `{model, display_name}`.
pub open spec fn model_entry_tv(p: (Seq<char>, Seq<char>)) -> TomlV {
    TomlV::Table(seq![("model"@, TomlV::Str(p.0)), ("display_name"@, TomlV::Str(p.1))])
}

/// The `[model_providers.custom]` table of a plan: its entries, plus the
/// `models` list when the plan has models.
pub open spec fn provider_table(plan: CodexConfigPlan) -> Seq<(Seq<char>, TomlV)> {
    let base = tset_all(Seq::empty(), settings_tv(settings_view(plan.provider@)));
    if plan.provider_models@.len() > 0 {
        tset(base, "models"@, TomlV::Array(crate::codex_integration::pair_views(plan.provider_models@).map_values(
            |p: (Seq<char>, Seq<char>)| model_entry_tv(p))))
    } else {
        base
    }
}

/// A configuration with a plan written into it: the plan's top-level keys
/// set in order, then `model_providers` set to the existing providers (when
/// they are kept and form a table; none otherwise) with `custom` set to the
/// plan's provider table.
pub open spec fn merged(doc: Seq<(Seq<char>, TomlV)>, plan: CodexConfigPlan, keep_other_providers: bool)
    -> Seq<(Seq<char>, TomlV)> {
    let d1 = tset_all(doc, settings_tv(settings_view(plan.top_level@)));
    let base = if keep_other_providers {
        match tget(d1, "model_providers"@) {
            Some(TomlV::Table(t)) => t,
            _ => Seq::empty(),
        }
    } else {
        Seq::empty()
    };
    tset(d1, "model_providers"@, TomlV::Table(tset(base, "custom"@, TomlV::Table(provider_table(plan)))))
}

fn setting_value(s: &TomlSetting) -> (r: TomlValue)
    ensures
        tv(r) == setting_tv(crate::codex_integration::setting_view(*s)),
{
    match s {
        TomlSetting::Text(t) => TomlValue::Str(t.clone()),
        TomlSetting::Flag(b) => TomlValue::Bool(*b),
    }
}

/// Sets each setting in order (see [`tset_all`]).
fn set_settings(es: &mut Vec<(String, TomlValue)>, settings: &Vec<(String, TomlSetting)>)
    ensures
        tv_members(final(es)@) == tset_all(tv_members(old(es)@), settings_tv(settings_view(settings@))),
{
    let ghost start = tv_members(es@);
    let ghost kvs = settings_tv(settings_view(settings@));
    let mut i: usize = 0;
    while i < settings.len()
        invariant
            i <= settings.len(),
            kvs == settings_tv(settings_view(settings@)),
            kvs.len() == settings@.len(),
            tv_members(es@) == tset_all(start, kvs.take(i as int)),
        decreases settings.len() - i,
    {
        let v = setting_value(&settings[i].1);
        toml_set(es, settings[i].0.as_str(), v);
        proof {
            assert(kvs.take(i + 1).drop_last() =~= kvs.take(i as int));
            assert(kvs[i as int] == (settings@[i as int].0@, setting_tv(crate::codex_integration::setting_view(settings@[i as int].1))));
        }
        i += 1;
    }
    proof {
        assert(kvs.take(i as int) =~= kvs);
    }
}

/// The `[model_providers.custom]` table of a plan (see [`provider_table`]).
pub fn provider_entries(plan: &CodexConfigPlan) -> (r: Vec<(String, TomlValue)>)
    ensures
        tv_members(r@) == provider_table(*plan),
{
    let mut es: Vec<(String, TomlValue)> = Vec::new();
    proof {
        assert(tv_members(es@) =~= Seq::<(Seq<char>, TomlV)>::empty());
    }
    set_settings(&mut es, &plan.provider);
    if plan.provider_models.len() > 0 {
        let ghost want = crate::codex_integration::pair_views(plan.provider_models@).map_values(
            |p: (Seq<char>, Seq<char>)| model_entry_tv(p));
        let mut models: Vec<TomlValue> = Vec::new();
        let mut i: usize = 0;
        while i < plan.provider_models.len()
            invariant
                i <= plan.provider_models.len(),
                want == crate::codex_integration::pair_views(plan.provider_models@).map_values(
                    |p: (Seq<char>, Seq<char>)| model_entry_tv(p)),
                want.len() == plan.provider_models@.len(),
                tv_seq(models@) == want.take(i as int),
            decreases plan.provider_models.len() - i,
        {
            let mut e: Vec<(String, TomlValue)> = Vec::new();
            e.push((owned("model"), TomlValue::Str(plan.provider_models[i].0.clone())));
            e.push((owned("display_name"), TomlValue::Str(plan.provider_models[i].1.clone())));
            proof {
                lemma_tv_members(e@);
                assert(tv_members(e@) =~= seq![("model"@, TomlV::Str(plan.provider_models@[i as int].0@)),
                    ("display_name"@, TomlV::Str(plan.provider_models@[i as int].1@))]);
            }
            let x = TomlValue::Table(e);
            let ghost b = models@;
            models.push(x);
            proof {
                assert(models@.drop_last() =~= b);
                assert(want[i as int] == tv(x));
                assert(want.take(i + 1) =~= want.take(i as int).push(want[i as int]));
            }
            i += 1;
        }
        proof {
            assert(want.take(i as int) =~= want);
        }
        toml_set(&mut es, "models", TomlValue::Array(models));
    }
    es
}

/// Writes a plan into a configuration (see [`merged`]): the plan's keys take
/// its values and every other key is kept.
pub fn merge_plan(doc: Vec<(String, TomlValue)>, plan: &CodexConfigPlan, keep_other_providers: bool)
    -> (r: Vec<(String, TomlValue)>)
    ensures
        tv_members(r@) == merged(tv_members(doc@), *plan, keep_other_providers),
{
    let mut d = doc;
    set_settings(&mut d, &plan.top_level);
    let mut providers: Vec<(String, TomlValue)> = Vec::new();
    proof {
        assert(tv_members(providers@) =~= Seq::<(Seq<char>, TomlV)>::empty());
    }
    if keep_other_providers {
        match toml_get(&d, "model_providers") {
            Some(TomlValue::Table(t)) => {
                providers = copy_entries(t);
            },
            _ => {},
        }
    }
    toml_set(&mut providers, "custom", TomlValue::Table(provider_entries(plan)));
    toml_set(&mut d, "model_providers", TomlValue::Table(providers));
    d
}

/// Why a configuration could not be written.
#[derive(Debug)]
pub enum ConfigTextError {
    /// The existing configuration is not TOML (the parser's message).
    Unparsable(String),
    /// The configuration could not be printed (the printer's message).
    Unprintable(String),
}

/// The configuration text with a plan written into it: the existing text
/// (none: an empty document) is parsed, the plan merged in, and the result
/// printed.
pub fn config_text(existing: Option<&str>, plan: &CodexConfigPlan, keep_other_providers: bool)
    -> (r: Result<String, ConfigTextError>)
    ensures
        match existing_doc(match existing { Some(t) => Some(t@), None => None }) {
            Err(e) => r matches Err(ConfigTextError::Unparsable(m)) && m@ == e,
            Ok(d) => match toml_printed(merged(d, *plan, keep_other_providers)) {
                Ok(s) => r matches Ok(t) && t@ == s,
                Err(e) => r matches Err(ConfigTextError::Unprintable(m)) && m@ == e,
            },
        },
{
    let doc = match existing {
        Some(t) => match parse_toml(t) {
            Ok(d) => d,
            Err(e) => return Err(ConfigTextError::Unparsable(e)),
        },
        None => {
            let d: Vec<(String, TomlValue)> = Vec::new();
            proof {
                assert(tv_members(d@) =~= Seq::<(Seq<char>, TomlV)>::empty());
            }
            d
        },
    };
    let m = merge_plan(doc, plan, keep_other_providers);
    match print_toml(&m) {
        Ok(s) => Ok(s),
        Err(e) => Err(ConfigTextError::Unprintable(e)),
    }
}

// ── Laws ──

/// Writing a plan into a configuration gives each of the plan's top-level
/// keys the plan's value, keeps every other top-level key as it was, and,
/// when other providers are kept, keeps every provider but `custom`, which
/// becomes the plan's provider table.
pub proof fn law_merge_keeps_other_keys(doc: Seq<(Seq<char>, TomlV)>, plan: CodexConfigPlan, keep_other_providers: bool, k: Seq<char>)
    requires
        last_val(settings_tv(settings_view(plan.top_level@)), "model_providers"@) is None,
    ensures
        k != "model_providers"@ ==> tget(merged(doc, plan, keep_other_providers), k) == match last_val(settings_tv(settings_view(plan.top_level@)), k) {
            Some(v) => Some(v),
            None => tget(doc, k),
        },
        match tget(merged(doc, plan, keep_other_providers), "model_providers"@) {
            Some(TomlV::Table(ps)) => tget(ps, "custom"@) == Some(TomlV::Table(provider_table(plan))),
            _ => false,
        },
        (keep_other_providers && k != "custom"@) ==> match tget(doc, "model_providers"@) {
            Some(TomlV::Table(old_ps)) => match tget(merged(doc, plan, keep_other_providers), "model_providers"@) {
                Some(TomlV::Table(ps)) => tget(ps, k) == tget(old_ps, k),
                _ => false,
            },
            _ => true,
        },
{
    let top = settings_tv(settings_view(plan.top_level@));
    let d1 = tset_all(doc, top);
    lemma_tset_all(doc, top, k);
    lemma_tset_all(doc, top, "model_providers"@);
    let base = if keep_other_providers {
        match tget(d1, "model_providers"@) {
            Some(TomlV::Table(t)) => t,
            _ => Seq::empty(),
        }
    } else {
        Seq::empty()
    };
    let provs = tset(base, "custom"@, TomlV::Table(provider_table(plan)));
    lemma_tset(d1, "model_providers"@, TomlV::Table(provs), k);
    lemma_tset(base, "custom"@, TomlV::Table(provider_table(plan)), k);
}

} // verus!
