//! JSON values as plain data, parsed and printed by `serde_json`.

use vstd::prelude::*;
use crate::text::{decimal, push_decimal, string_from_chars};

verus! {

/// A JSON number: its integer readings, when it has them, and its text.
#[derive(Debug, Clone)]
pub struct JsonNumber {
    /// The value as an unsigned 64-bit integer, when it is one.
    pub as_u64: Option<u64>,
    /// The value as a signed 64-bit integer, when it is one.
    pub as_i64: Option<i64>,
    /// The number as `serde_json` prints it.
    pub text: String,
}

/// A JSON value. Object members keep the order `serde_json` gives them (sorted
/// by key, each key once).
#[derive(Debug)]
pub enum Json {
    Null,
    Bool(bool),
    Number(JsonNumber),
    Str(String),
    Array(Vec<Json>),
    Object(Vec<(String, Json)>),
}

#[verifier::external_type_specification]
#[verifier::external_body]
pub struct ExValue(serde_json::Value);

/// The value of the first member named `key`.
pub open spec fn member(es: Seq<(String, Json)>, key: Seq<char>) -> Option<Json>
    decreases es.len(),
{
    if es.len() == 0 {
        None
    } else if es[0].0@ == key {
        Some(es[0].1)
    } else {
        member(es.drop_first(), key)
    }
}

/// `j[key]` when `j` is an object that has the key.
pub open spec fn get(j: Json, key: Seq<char>) -> Option<Json> {
    match j {
        Json::Object(es) => member(es@, key),
        _ => None,
    }
}

/// `j[key]` when `j` is an object with the key, following an `Option`.
pub open spec fn get_opt(j: Option<Json>, key: Seq<char>) -> Option<Json> {
    match j {
        Some(v) => get(v, key),
        None => None,
    }
}

/// The text of a string value.
pub open spec fn str_of(j: Option<Json>) -> Option<Seq<char>> {
    match j {
        Some(Json::Str(s)) => Some(s@),
        _ => None,
    }
}

/// The unsigned reading of a number value.
pub open spec fn u64_of(j: Option<Json>) -> Option<u64> {
    match j {
        Some(Json::Number(n)) => n.as_u64,
        _ => None,
    }
}

/// The signed reading of a number value.
pub open spec fn i64_of(j: Option<Json>) -> Option<i64> {
    match j {
        Some(Json::Number(n)) => n.as_i64,
        _ => None,
    }
}

/// The elements of an array value.
pub open spec fn array_of(j: Option<Json>) -> Option<Seq<Json>> {
    match j {
        Some(Json::Array(v)) => Some(v@),
        _ => None,
    }
}

/// Element `i` of an array value.
pub open spec fn at(j: Option<Json>, i: int) -> Option<Json> {
    match j {
        Some(Json::Array(v)) => if 0 <= i < v@.len() { Some(v@[i]) } else { None },
        _ => None,
    }
}

/// The value that `serde_json` parses the text into, if it is valid JSON.
pub uninterp spec fn parse_text(text: Seq<char>) -> Option<Json>;

/// The text that `serde_json` prints a value as (compact form).
pub uninterp spec fn print_text(j: Json) -> Seq<char>;

#[verifier::external_body]
fn from_value(v: &serde_json::Value) -> Json {
    match v {
        serde_json::Value::Null => Json::Null,
        serde_json::Value::Bool(b) => Json::Bool(*b),
        serde_json::Value::Number(n) => Json::Number(JsonNumber { as_u64: n.as_u64(), as_i64: n.as_i64(), text: n.to_string() }),
        serde_json::Value::String(s) => Json::Str(s.clone()),
        serde_json::Value::Array(a) => Json::Array(a.iter().map(from_value).collect()),
        serde_json::Value::Object(m) => Json::Object(m.iter().map(|(k, x)| (k.clone(), from_value(x))).collect()),
    }
}

#[verifier::external_body]
fn to_value(j: &Json) -> serde_json::Value {
    match j {
        Json::Null => serde_json::Value::Null,
        Json::Bool(b) => serde_json::Value::Bool(*b),
        Json::Number(n) => serde_json::from_str(&n.text).unwrap_or(serde_json::Value::Null),
        Json::Str(s) => serde_json::Value::String(s.clone()),
        Json::Array(a) => serde_json::Value::Array(a.iter().map(to_value).collect()),
        Json::Object(es) => serde_json::Value::Object(es.iter().map(|(k, x)| (k.clone(), to_value(x))).collect()),
    }
}

/// Parses text as JSON.
///
/// Calls `serde_json::from_str::<serde_json::Value>` and converts the value
/// member by member; `None` when the text is not valid JSON. What the value is
/// for a given text is named, not stated.
#[verifier::external_body]
pub fn parse(text: &str) -> (r: Option<Json>)
    ensures
        r == parse_text(text@),
{
    serde_json::from_str::<serde_json::Value>(text).ok().map(|v| from_value(&v))
}

/// Prints a value as compact JSON text.
///
/// Converts the value member by member and calls `serde_json::to_string`,
/// which cannot fail for a `serde_json::Value` (its keys are strings). The
/// text for a given value is named, not stated.
#[verifier::external_body]
pub fn print(j: &Json) -> (r: String)
    ensures
        r@ == print_text(*j),
{
    serde_json::to_string(&to_value(j)).unwrap_or_default()
}

/// `j[key]` when `j` is an object that has the key.
pub fn get_member<'a>(j: &'a Json, key: &str) -> (r: Option<&'a Json>)
    ensures
        match r {
            Some(v) => get(*j, key@) == Some(*v),
            None => get(*j, key@) is None,
        },
{
    match j {
        Json::Object(es) => {
            let k = crate::text::owned(key);
            let mut i: usize = 0;
            assert(es@.skip(0) =~= es@);
            while i < es.len()
                invariant
                    i <= es.len(),
                    k@ == key@,
                    get(*j, key@) == member(es@, key@),
                    member(es@, key@) == member(es@.skip(i as int), key@),
                decreases es.len() - i,
            {
                proof {
                    assert(es@.skip(i as int).drop_first() =~= es@.skip(i + 1));
                }
                if es[i].0 == k {
                    assert(es@.skip(i as int)[0] == es@[i as int]);
                    return Some(&es[i].1);
                }
                i += 1;
            }
            None
        },
        _ => None,
    }
}

/// The text of a string value.
pub fn as_str<'a>(j: Option<&'a Json>) -> (r: Option<&'a String>)
    ensures
        match r {
            Some(s) => str_of(opt_val(j)) == Some(s@),
            None => str_of(opt_val(j)) is None,
        },
{
    match j {
        Some(Json::Str(s)) => Some(s),
        _ => None,
    }
}

/// The value behind an optional reference.
pub open spec fn opt_val(j: Option<&Json>) -> Option<Json> {
    match j {
        Some(v) => Some(*v),
        None => None,
    }
}

/// `j[key]` following an optional value.
pub fn get_in<'a>(j: Option<&'a Json>, key: &str) -> (r: Option<&'a Json>)
    ensures
        opt_val(r) == get_opt(opt_val(j), key@),
{
    match j {
        Some(v) => get_member(v, key),
        None => None,
    }
}

/// The unsigned reading of a number value.
pub fn as_u64(j: Option<&Json>) -> (r: Option<u64>)
    ensures
        r == u64_of(opt_val(j)),
{
    match j {
        Some(Json::Number(n)) => n.as_u64,
        _ => None,
    }
}

/// The signed reading of a number value.
pub fn as_i64(j: Option<&Json>) -> (r: Option<i64>)
    ensures
        r == i64_of(opt_val(j)),
{
    match j {
        Some(Json::Number(n)) => n.as_i64,
        _ => None,
    }
}

/// The elements of an array value.
pub fn as_array<'a>(j: Option<&'a Json>) -> (r: Option<&'a Vec<Json>>)
    ensures
        match r {
            Some(v) => array_of(opt_val(j)) == Some(v@),
            None => array_of(opt_val(j)) is None,
        },
{
    match j {
        Some(Json::Array(v)) => Some(v),
        _ => None,
    }
}

/// Element `i` of an array value.
pub fn at_index<'a>(j: Option<&'a Json>, i: usize) -> (r: Option<&'a Json>)
    ensures
        opt_val(r) == at(opt_val(j), i as int),
{
    match j {
        Some(Json::Array(v)) => if i < v.len() { Some(&v[i]) } else { None },
        _ => None,
    }
}

/// The value that `serde_json` parses the bytes into, if they are valid JSON.
pub uninterp spec fn parse_bytes_text(bytes: Seq<u8>) -> Option<Json>;

/// The bytes that `serde_json` writes a value as (compact form).
pub uninterp spec fn print_bytes(j: Json) -> Seq<u8>;

/// Parses bytes as JSON.
///
/// Calls `serde_json::from_slice::<serde_json::Value>` and converts the value
/// member by member; `None` when the bytes are not valid JSON. What the value
/// is for given bytes is named, not stated.
#[verifier::external_body]
pub fn parse_slice(bytes: &[u8]) -> (r: Option<Json>)
    ensures
        r == parse_bytes_text(bytes@),
{
    serde_json::from_slice::<serde_json::Value>(bytes).ok().map(|v| from_value(&v))
}

/// Writes a value as compact JSON bytes.
///
/// Converts the value member by member and calls `serde_json::to_vec`, which
/// cannot fail for a `serde_json::Value`. The bytes for a given value are
/// named, not stated.
#[verifier::external_body]
pub fn to_bytes(j: &Json) -> (r: Vec<u8>)
    ensures
        r@ == print_bytes(*j),
{
    serde_json::to_vec(&to_value(j)).unwrap_or_default()
}

/// Whether a member has the given key.
pub open spec fn named_key(key: Seq<char>) -> spec_fn((String, Json)) -> bool {
    |e: (String, Json)| e.0@ == key
}

/// The members with `key` set to `v`: the first member with that key gets the
/// value, otherwise the member is added last.
pub open spec fn set_in(es: Seq<(String, Json)>, key: Seq<char>, k: String, v: Json) -> Seq<(String, Json)> {
    match crate::sorting::first_where(es, named_key(key)) {
        Some(i) => es.update(i, (es[i].0, v)),
        None => es.push((k, v)),
    }
}

/// Sets member `key` of an object (other values are left as they are).
pub fn set_member(j: &mut Json, key: String, v: Json)
    ensures
        match *old(j) {
            Json::Object(es) => match *final(j) {
                Json::Object(nes) => nes@ == set_in(es@, key@, key, v),
                _ => false,
            },
            _ => *final(j) == *old(j),
        },
{
    let idx = match &*j {
        Json::Object(es) => find_key(es, &key),
        _ => return,
    };
    let mut taken = Json::Null;
    std::mem::swap(j, &mut taken);
    match taken {
        Json::Object(mut es) => {
            match idx {
                Some(i) => {
                    let name = es[i].0.clone();
                    es.set(i, (name, v));
                },
                None => {
                    es.push((key, v));
                },
            }
            *j = Json::Object(es);
        },
        other => {
            *j = other;
        },
    }
}

fn find_key(es: &Vec<(String, Json)>, key: &String) -> (r: Option<usize>)
    ensures
        match r {
            Some(i) => crate::sorting::first_where(es@, named_key(key@)) == Some(i as int) && i < es@.len(),
            None => crate::sorting::first_where(es@, named_key(key@)) is None,
        },
{
    let ghost f = named_key(key@);
    let mut i: usize = 0;
    while i < es.len()
        invariant
            i <= es.len(),
            f == named_key(key@),
            crate::sorting::first_where(es@.take(i as int), f) is None,
        decreases es.len() - i,
    {
        proof {
            crate::sorting::lemma_first_where(es@, f, i as int);
        }
        if es[i].0 == *key {
            proof {
                crate::sorting::lemma_first_where(es@, f, i + 1);
            }
            return Some(i);
        }
        i += 1;
    }
    proof {
        crate::sorting::lemma_first_where(es@, f, i as int);
    }
    None
}

// ── Plain values ──

/// A JSON value as plain data: what a [`Json`] holds.
pub enum JsonV {
    Null,
    Bool(bool),
    /// Unsigned reading, signed reading, printed text.
    Number(Option<u64>, Option<i64>, Seq<char>),
    Str(Seq<char>),
    Array(Seq<JsonV>),
    Object(Seq<(Seq<char>, JsonV)>),
}

/// The plain value of a JSON value.
pub open spec fn jv(j: Json) -> JsonV
    decreases j,
{
    match j {
        Json::Null => JsonV::Null,
        Json::Bool(b) => JsonV::Bool(b),
        Json::Number(n) => JsonV::Number(n.as_u64, n.as_i64, n.text@),
        Json::Str(s) => JsonV::Str(s@),
        Json::Array(v) => JsonV::Array(jv_seq(v@)),
        Json::Object(es) => JsonV::Object(jv_members(es@)),
    }
}

/// The plain values of a list of JSON values.
pub open spec fn jv_seq(s: Seq<Json>) -> Seq<JsonV>
    decreases s,
{
    if s.len() == 0 {
        Seq::empty()
    } else {
        jv_seq(s.drop_last()).push(jv(s.last()))
    }
}

/// The plain values of a list of object members.
pub open spec fn jv_members(s: Seq<(String, Json)>) -> Seq<(Seq<char>, JsonV)>
    decreases s,
{
    if s.len() == 0 {
        Seq::empty()
    } else {
        jv_members(s.drop_last()).push((s.last().0@, jv(s.last().1)))
    }
}
/// The plain members are the members' keys and plain values, one for one.
pub proof fn lemma_jv_members(s: Seq<(String, Json)>)
    ensures
        jv_members(s).len() == s.len(),
        forall|i: int| 0 <= i < s.len() ==> #[trigger] jv_members(s)[i] == (s[i].0@, jv(s[i].1)),
    decreases s.len(),
{
    if s.len() > 0 {
        lemma_jv_members(s.drop_last());
        assert forall|i: int| 0 <= i < s.len() implies #[trigger] jv_members(s)[i] == (s[i].0@, jv(s[i].1)) by {
            if i < s.len() - 1 {
                assert(s.drop_last()[i] == s[i]);
            }
        }
    }
}

/// The plain values of a list are its elements' plain values, one for one.
pub proof fn lemma_jv_seq(s: Seq<Json>)
    ensures
        jv_seq(s).len() == s.len(),
        forall|i: int| 0 <= i < s.len() ==> #[trigger] jv_seq(s)[i] == jv(s[i]),
    decreases s.len(),
{
    if s.len() > 0 {
        lemma_jv_seq(s.drop_last());
        assert forall|i: int| 0 <= i < s.len() implies #[trigger] jv_seq(s)[i] == jv(s[i]) by {
            if i < s.len() - 1 {
                assert(s.drop_last()[i] == s[i]);
            }
        }
    }
}

/// Lists with the same plain values one for one have the same plain list.
pub proof fn lemma_jv_seq_ext(a: Seq<Json>, b: Seq<JsonV>)
    requires
        a.len() == b.len(),
        forall|i: int| 0 <= i < a.len() ==> jv(#[trigger] a[i]) == b[i],
    ensures
        jv_seq(a) == b,
{
    lemma_jv_seq(a);
    assert(jv_seq(a) =~= b);
}

/// Member lists with the same plain members one for one have the same plain list.
pub proof fn lemma_jv_members_ext(a: Seq<(String, Json)>, b: Seq<(Seq<char>, JsonV)>)
    requires
        a.len() == b.len(),
        forall|i: int| 0 <= i < a.len() ==> (#[trigger] a[i]).0@ == b[i].0 && jv(a[i].1) == b[i].1,
    ensures
        jv_members(a) == b,
{
    lemma_jv_members(a);
    assert(jv_members(a) =~= b);
}

/// Whether a plain member has the key.
pub open spec fn vnamed(key: Seq<char>) -> spec_fn((Seq<char>, JsonV)) -> bool {
    |e: (Seq<char>, JsonV)| e.0 == key
}

/// The value of the first plain member with the key.
pub open spec fn vmember(es: Seq<(Seq<char>, JsonV)>, key: Seq<char>) -> Option<JsonV> {
    match crate::sorting::first_where(es, vnamed(key)) {
        Some(i) => Some(es[i].1),
        None => None,
    }
}

/// Whether some plain member has the key.
pub open spec fn vhas(es: Seq<(Seq<char>, JsonV)>, key: Seq<char>) -> bool {
    crate::sorting::first_where(es, vnamed(key)) is Some
}

/// The members with `key` set to `v`: the first member with the key gets the
/// value, otherwise the member is added last.
pub open spec fn vinsert(es: Seq<(Seq<char>, JsonV)>, key: Seq<char>, v: JsonV) -> Seq<(Seq<char>, JsonV)> {
    match crate::sorting::first_where(es, vnamed(key)) {
        Some(i) => es.update(i, (key, v)),
        None => es.push((key, v)),
    }
}

/// Whether a plain member lacks the key.
pub open spec fn vother(key: Seq<char>) -> spec_fn((Seq<char>, JsonV)) -> bool {
    |e: (Seq<char>, JsonV)| e.0 != key
}

/// The members without any member named `key`.
pub open spec fn vremove(es: Seq<(Seq<char>, JsonV)>, key: Seq<char>) -> Seq<(Seq<char>, JsonV)> {
    crate::sorting::keep(es, vother(key))
}

/// The value of the first member with the key (by the first match).
pub open spec fn first_member(es: Seq<(String, Json)>, key: Seq<char>) -> Option<Json> {
    match crate::sorting::first_where(es, named_key(key)) {
        Some(i) => Some(es[i].1),
        None => None,
    }
}

/// Two predicates that agree one for one find the same first index.
pub proof fn lemma_first_where_same<A, B>(a: Seq<A>, f: spec_fn(A) -> bool, b: Seq<B>, g: spec_fn(B) -> bool)
    requires
        a.len() == b.len(),
        forall|i: int| 0 <= i < a.len() ==> f(#[trigger] a[i]) == g(b[i]),
    ensures
        crate::sorting::first_where(a, f) == crate::sorting::first_where(b, g),
    decreases a.len(),
{
    if a.len() > 0 {
        assert forall|i: int| 0 <= i < a.len() - 1 implies f(#[trigger] a.drop_last()[i]) == g(b.drop_last()[i]) by {
            assert(a.drop_last()[i] == a[i]);
            assert(b.drop_last()[i] == b[i]);
        }
        lemma_first_where_same(a.drop_last(), f, b.drop_last(), g);
        assert(f(a[a.len() - 1]) == g(b[b.len() - 1]));
    }
}

/// The first member found among members is the first found among their plain values.
pub proof fn lemma_first_key(es: Seq<(String, Json)>, key: Seq<char>)
    ensures
        crate::sorting::first_where(es, named_key(key)) == crate::sorting::first_where(jv_members(es), vnamed(key)),
        first_member(es, key) matches Some(v) ==> vmember(jv_members(es), key) == Some(jv(v)),
        first_member(es, key) is None ==> vmember(jv_members(es), key) is None,
{
    lemma_jv_members(es);
    assert forall|i: int| 0 <= i < es.len() implies named_key(key)(#[trigger] es[i]) == vnamed(key)(jv_members(es)[i]) by {}
    lemma_first_where_same(es, named_key(key), jv_members(es), vnamed(key));
    crate::sorting::lemma_first_where_props(es, named_key(key));
}

/// `member` is the first match.
pub proof fn lemma_member_first(es: Seq<(String, Json)>, key: Seq<char>)
    ensures
        member(es, key) == first_member(es, key),
    decreases es.len(),
{
    let f = named_key(key);
    crate::sorting::lemma_first_where_props(es, f);
    if es.len() > 0 {
        let d = es.drop_first();
        lemma_member_first(d, key);
        crate::sorting::lemma_first_where_props(d, f);
        if f(es[0]) {
            match crate::sorting::first_where(es, f) {
                Some(i) => {
                    if i > 0 {
                        assert(!f(es[0]));
                    }
                },
                None => {
                    assert(!f(es[0]));
                },
            }
        } else {
            match crate::sorting::first_where(es, f) {
                Some(i) => {
                    assert(i > 0);
                    assert(d[i - 1] == es[i]);
                    assert forall|j: int| 0 <= j < i - 1 implies !f(#[trigger] d[j]) by {
                        assert(d[j] == es[j + 1]);
                    }
                    match crate::sorting::first_where(d, f) {
                        Some(k) => {
                            assert(d[k] == es[k + 1]);
                            if k < i - 1 {
                                assert(!f(es[k + 1]));
                            } else if k > i - 1 {
                                assert(!f(d[i - 1]));
                            }
                        },
                        None => {
                            assert(!f(d[i - 1]));
                        },
                    }
                },
                None => {
                    match crate::sorting::first_where(d, f) {
                        Some(k) => {
                            assert(d[k] == es[k + 1]);
                            assert(!f(es[k + 1]));
                        },
                        None => {},
                    }
                },
            }
        }
    }
}

/// `get` on an object is the first match of its members, and its plain value
/// is the first match among the plain members.
pub proof fn lemma_get_view(j: Json, key: Seq<char>)
    ensures
        j is Object ==> get(j, key) == first_member(j->Object_0@, key),
        get(j, key) matches Some(v) ==> j is Object && vmember(jv_members(j->Object_0@), key) == Some(jv(v)),
        (j is Object && get(j, key) is None) ==> vmember(jv_members(j->Object_0@), key) is None,
{
    match j {
        Json::Object(es) => {
            lemma_member_first(es@, key);
            lemma_first_key(es@, key);
        },
        _ => {},
    }
}

/// A deep copy of a value.
pub fn copy_json(j: &Json) -> (r: Json)
    ensures
        jv(r) == jv(*j),
    decreases j,
{
    match j {
        Json::Null => Json::Null,
        Json::Bool(b) => Json::Bool(*b),
        Json::Number(n) => Json::Number(JsonNumber { as_u64: n.as_u64, as_i64: n.as_i64, text: n.text.clone() }),
        Json::Str(s) => Json::Str(s.clone()),
        Json::Array(v) => {
            let mut out: Vec<Json> = Vec::new();
            let mut i: usize = 0;
            while i < v.len()
                invariant
                    i <= v.len(),
                    *j == Json::Array(*v),
                    out@.len() == i,
                    forall|x: int| 0 <= x < i ==> jv(#[trigger] out@[x]) == jv(v@[x]),
                decreases v.len() - i,
            {
                proof {
                    assert(decreases_to!(*j => (*j)->Array_0));
                    assert((*j)->Array_0 == *v);
                    assert(decreases_to!(*v => v@));
                    assert(decreases_to!(v@ => v@[i as int]));
                    assert(decreases_to!(*j => v@[i as int]));
                }
                let c = copy_json(&v[i]);
                out.push(c);
                i += 1;
            }
            proof {
                lemma_jv_seq(v@);
                lemma_jv_seq_ext(out@, jv_seq(v@));
            }
            Json::Array(out)
        },
        Json::Object(es) => {
            let mut out: Vec<(String, Json)> = Vec::new();
            let mut i: usize = 0;
            while i < es.len()
                invariant
                    i <= es.len(),
                    *j == Json::Object(*es),
                    out@.len() == i,
                    forall|x: int| 0 <= x < i ==> (#[trigger] out@[x]).0@ == es@[x].0@ && jv(out@[x].1) == jv(es@[x].1),
                decreases es.len() - i,
            {
                proof {
                    assert(decreases_to!(*j => (*j)->Object_0));
                    assert((*j)->Object_0 == *es);
                    assert(decreases_to!(*es => es@));
                    assert(decreases_to!(es@ => es@[i as int]));
                    assert(decreases_to!(es@[i as int] => es@[i as int].1));
                    assert(decreases_to!(*j => es@[i as int].1));
                }
                let c = copy_json(&es[i].1);
                out.push((es[i].0.clone(), c));
                i += 1;
            }
            proof {
                lemma_jv_members(es@);
                lemma_jv_members_ext(out@, jv_members(es@));
            }
            Json::Object(out)
        },
    }
}

/// Sets member `key` among object members: the first member with the key
/// gets the value, otherwise the member is added last.
pub fn put(es: &mut Vec<(String, Json)>, key: &str, v: Json)
    ensures
        jv_members(final(es)@) == vinsert(jv_members(old(es)@), key@, jv(v)),
{
    let k = crate::text::owned(key);
    let idx = find_key(es, &k);
    proof {
        lemma_first_key(old(es)@, key@);
        lemma_jv_members(old(es)@);
    }
    match idx {
        Some(i) => {
            es.set(i, (k, v));
            proof {
                lemma_jv_members(es@);
                assert(jv_members(es@) =~= jv_members(old(es)@).update(i as int, (key@, jv(v))));
            }
        },
        None => {
            es.push((k, v));
            proof {
                assert(es@.drop_last() =~= old(es)@);
            }
        },
    }
}

proof fn lemma_first_member_push(s: Seq<(String, Json)>, x: (String, Json), key: Seq<char>)
    ensures
        first_member(s.push(x), key) == (if first_member(s, key) is Some {
            first_member(s, key)
        } else if x.0@ == key {
            Some(x.1)
        } else {
            None
        }),
{
    let t = s.push(x);
    assert(t.drop_last() =~= s);
    crate::sorting::lemma_first_where_props(s, named_key(key));
    match crate::sorting::first_where(s, named_key(key)) {
        Some(i) => {
            assert(t[i] == s[i]);
        },
        None => {},
    }
}

proof fn lemma_jv_members_push(s: Seq<(String, Json)>, x: (String, Json))
    ensures
        jv_members(s.push(x)) == jv_members(s).push((x.0@, jv(x.1))),
{
    assert(s.push(x).drop_last() =~= s);
}

proof fn lemma_vremove_push(vs: Seq<(Seq<char>, JsonV)>, x: (Seq<char>, JsonV), key: Seq<char>)
    ensures
        vremove(vs.push(x), key) == (if x.0 != key { vremove(vs, key).push(x) } else { vremove(vs, key) }),
{
    assert(vs.push(x).drop_last() =~= vs);
}

/// Removing a key that no member has changes nothing.
pub proof fn lemma_vremove_absent(es: Seq<(Seq<char>, JsonV)>, key: Seq<char>)
    requires
        vmember(es, key) is None,
    ensures
        vremove(es, key) == es,
{
    crate::sorting::lemma_first_where_props(es, vnamed(key));
    assert forall|i: int| 0 <= i < es.len() implies #[trigger] vother(key)(es[i]) by {
        assert(!vnamed(key)(es[i]));
    }
    crate::sorting::lemma_keep_all(es, vother(key));
}

/// The position of the first member named `key`.
pub fn member_index(es: &Vec<(String, Json)>, key: &str) -> (r: Option<usize>)
    ensures
        match r {
            Some(i) => i < es@.len() && crate::sorting::first_where(jv_members(es@), vnamed(key@)) == Some(i as int)
                && vmember(jv_members(es@), key@) == Some(jv(es@[i as int].1)),
            None => crate::sorting::first_where(jv_members(es@), vnamed(key@)) is None
                && vmember(jv_members(es@), key@) is None,
        },
{
    let k = crate::text::owned(key);
    let r = find_key(es, &k);
    proof {
        lemma_first_key(es@, key@);
        lemma_jv_members(es@);
    }
    r
}

/// Removes every member named `key` and gives back the value of the first one.
pub fn take_member(es: &mut Vec<(String, Json)>, key: &str) -> (r: Option<Json>)
    ensures
        r == first_member(old(es)@, key@),
        jv_members(final(es)@) == vremove(jv_members(old(es)@), key@),
{
    let ghost s = es@;
    let k = crate::text::owned(key);
    let mut rest: Vec<(String, Json)> = Vec::new();
    std::mem::swap(es, &mut rest);
    let mut found: Option<Json> = None;
    let n = rest.len();
    let mut c: usize = 0;
    proof {
        assert(rest@.skip(0) =~= s);
    }
    while c < n
        invariant
            c <= n,
            n == s.len(),
            k@ == key@,
            rest@ == s.skip(c as int),
            jv_members(es@) == vremove(jv_members(s.take(c as int)), key@),
            found == first_member(s.take(c as int), key@),
        decreases n - c,
    {
        let e = rest.remove(0);
        proof {
            assert(e == s[c as int]);
            assert(rest@ =~= s.skip(c + 1));
            assert(s.take(c + 1) =~= s.take(c as int).push(e));
            lemma_first_member_push(s.take(c as int), e, key@);
            lemma_jv_members_push(s.take(c as int), e);
            lemma_vremove_push(jv_members(s.take(c as int)), (e.0@, jv(e.1)), key@);
        }
        if e.0 == k {
            if found.is_none() {
                found = Some(e.1);
            }
        } else {
            let ghost before = es@;
            es.push(e);
            proof {
                assert(es@.drop_last() =~= before);
            }
        }
        c += 1;
    }
    proof {
        assert(s.take(c as int) =~= s);
    }
    found
}

// ── Numbers ──

/// The decimal text of a signed integer.
pub open spec fn i64_text(n: i64) -> Seq<char> {
    if n < 0 { seq!['-'] + decimal((-(n as int)) as nat) } else { decimal(n as nat) }
}

/// A signed integer as a JSON number.
pub open spec fn i64_number(n: i64) -> JsonV {
    JsonV::Number(if n >= 0 { Some(n as u64) } else { None }, Some(n), i64_text(n))
}

/// An unsigned integer as a JSON number.
pub open spec fn u64_number(n: u64) -> JsonV {
    JsonV::Number(Some(n), if n <= i64::MAX { Some(n as i64) } else { None }, decimal(n as nat))
}

/// A signed integer as a JSON number.
pub fn i64_json(n: i64) -> (r: Json)
    ensures
        jv(r) == i64_number(n),
{
    let mut t: Vec<char> = Vec::new();
    if n < 0 {
        t.push('-');
        let mag: u64 = (-(n as i128)) as u64;
        push_decimal(&mut t, mag);
        proof {
            assert(t@ =~= seq!['-'] + decimal((-(n as int)) as nat));
        }
    } else {
        push_decimal(&mut t, n as u64);
        proof {
            assert(t@ =~= decimal(n as nat));
        }
    }
    let as_u64: Option<u64> = if n >= 0 { Some(n as u64) } else { None };
    Json::Number(JsonNumber { as_u64, as_i64: Some(n), text: string_from_chars(&t) })
}

/// An unsigned integer as a JSON number.
pub fn u64_json(n: u64) -> (r: Json)
    ensures
        jv(r) == u64_number(n),
{
    let mut t: Vec<char> = Vec::new();
    push_decimal(&mut t, n);
    let as_i64: Option<i64> = if n <= i64::MAX as u64 { Some(n as i64) } else { None };
    proof {
        assert(t@ =~= decimal(n as nat));
    }
    Json::Number(JsonNumber { as_u64: Some(n), as_i64, text: string_from_chars(&t) })
}

} // verus!
