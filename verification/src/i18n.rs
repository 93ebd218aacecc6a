//! Tray menu texts: choosing the locale, reading its tray entries and
//! filling in missing ones.

use vstd::prelude::*;
use crate::json::{get_member, get_opt, parse, parse_text, Json};
use crate::text::{has_prefix, owned, starts_with, str_chars};

verus! {

/// Locales with a translation file.
#[derive(Debug, Clone, Copy, PartialEq, Eq, Structural)]
pub enum Locale {
    En,
    Tr,
    Ja,
    Ko,
    Ru,
    Es,
    Pt,
    Vi,
    Ar,
    My,
    ZhTw,
    Zh,
}

/// Tray menu texts.
#[derive(Debug, Clone)]
pub struct TrayTexts {
    pub current: String,
    pub quota: String,
    pub switch_next: String,
    pub refresh_current: String,
    pub show_window: String,
    pub quit: String,
    pub no_account: String,
    pub unknown_quota: String,
    pub forbidden: String,
}

/// The lower-case form of a text, as `str::to_lowercase` gives it.
pub uninterp spec fn lowercase(s: Seq<char>) -> Seq<char>;

/// Calls `str::to_lowercase` (Unicode lower-case mapping).
#[verifier::external_body]
pub(crate) fn to_lower(s: &str) -> (r: String)
    ensures
        r@ == lowercase(s@),
{
    s.to_lowercase()
}

/// The locale for a language tag: chosen by the prefix of its lower-case form,
/// simplified Chinese when nothing matches.
pub open spec fn locale_of(lower: Seq<char>) -> Locale {
    if has_prefix(lower, "en"@) { Locale::En }
    else if has_prefix(lower, "tr"@) { Locale::Tr }
    else if has_prefix(lower, "ja"@) { Locale::Ja }
    else if has_prefix(lower, "ko"@) { Locale::Ko }
    else if has_prefix(lower, "ru"@) { Locale::Ru }
    else if has_prefix(lower, "es"@) { Locale::Es }
    else if has_prefix(lower, "pt"@) { Locale::Pt }
    else if has_prefix(lower, "vi"@) { Locale::Vi }
    else if has_prefix(lower, "ar"@) { Locale::Ar }
    else if has_prefix(lower, "my"@) || has_prefix(lower, "ms"@) { Locale::My }
    else if has_prefix(lower, "zh-tw"@) || has_prefix(lower, "zh_hant"@) { Locale::ZhTw }
    else { Locale::Zh }
}

fn prefixed(t: &Vec<char>, p: &str) -> (r: bool)
    ensures
        r == has_prefix(t@, p@),
{
    starts_with(t, &str_chars(p))
}

/// The locale whose translation file serves a language tag.
pub fn locale_for_language(lang: &str) -> (r: Locale)
    ensures
        r == locale_of(lowercase(lang@)),
{
    let lower = to_lower(lang);
    let t = str_chars(lower.as_str());
    if prefixed(&t, "en") { Locale::En }
    else if prefixed(&t, "tr") { Locale::Tr }
    else if prefixed(&t, "ja") { Locale::Ja }
    else if prefixed(&t, "ko") { Locale::Ko }
    else if prefixed(&t, "ru") { Locale::Ru }
    else if prefixed(&t, "es") { Locale::Es }
    else if prefixed(&t, "pt") { Locale::Pt }
    else if prefixed(&t, "vi") { Locale::Vi }
    else if prefixed(&t, "ar") { Locale::Ar }
    else if prefixed(&t, "my") || prefixed(&t, "ms") { Locale::My }
    else if prefixed(&t, "zh-tw") || prefixed(&t, "zh_hant") { Locale::ZhTw }
    else { Locale::Zh }
}

/// The translation file of a locale.
pub open spec fn locale_file(l: Locale) -> Seq<char> {
    match l {
        Locale::En => "en.json"@,
        Locale::Tr => "tr.json"@,
        Locale::Ja => "ja.json"@,
        Locale::Ko => "ko.json"@,
        Locale::Ru => "ru.json"@,
        Locale::Es => "es.json"@,
        Locale::Pt => "pt.json"@,
        Locale::Vi => "vi.json"@,
        Locale::Ar => "ar.json"@,
        Locale::My => "my.json"@,
        Locale::ZhTw => "zh-TW.json"@,
        Locale::Zh => "zh.json"@,
    }
}

/// The name of a locale's translation file.
pub fn locale_file_name(l: Locale) -> (r: String)
    ensures
        r@ == locale_file(l),
{
    match l {
        Locale::En => owned("en.json"),
        Locale::Tr => owned("tr.json"),
        Locale::Ja => owned("ja.json"),
        Locale::Ko => owned("ko.json"),
        Locale::Ru => owned("ru.json"),
        Locale::Es => owned("es.json"),
        Locale::Pt => owned("pt.json"),
        Locale::Vi => owned("vi.json"),
        Locale::Ar => owned("ar.json"),
        Locale::My => owned("my.json"),
        Locale::ZhTw => owned("zh-TW.json"),
        Locale::Zh => owned("zh.json"),
    }
}

/// The value of the last entry with the given key.
pub open spec fn entry_value(entries: Seq<(String, String)>, key: Seq<char>) -> Option<Seq<char>>
    decreases entries.len(),
{
    if entries.len() == 0 {
        None
    } else if entries.last().0@ == key {
        Some(entries.last().1@)
    } else {
        entry_value(entries.drop_last(), key)
    }
}

/// The entry for `key`, or `default`.
pub open spec fn text_or(entries: Seq<(String, String)>, key: Seq<char>, default: Seq<char>) -> Seq<char> {
    match entry_value(entries, key) {
        Some(v) => v,
        None => default,
    }
}

fn lookup(entries: &Vec<(String, String)>, key: &str, default: &str) -> (r: String)
    ensures
        r@ == text_or(entries@, key@, default@),
{
    let k = owned(key);
    let mut i: usize = entries.len();
    assert(entries@.take(i as int) =~= entries@);
    while i > 0
        invariant
            i <= entries.len(),
            k@ == key@,
            entry_value(entries@, key@) == entry_value(entries@.take(i as int), key@),
        decreases i,
    {
        assert(entries@.take(i as int).drop_last() =~= entries@.take(i - 1));
        assert(entries@.take(i as int).last() == entries@[i - 1]);
        if entries[i - 1].0 == k {
            return entries[i - 1].1.clone();
        }
        i -= 1;
    }
    owned(default)
}

/// The tray texts from a locale's `tray` entries (key, text), later entries
/// overriding earlier ones; missing entries take their English defaults.
pub fn get_tray_texts(tray: &Vec<(String, String)>) -> (r: TrayTexts)
    ensures
        r.current@ == text_or(tray@, "current"@, "Current"@),
        r.quota@ == text_or(tray@, "quota"@, "Quota"@),
        r.switch_next@ == text_or(tray@, "switch_next"@, "Switch to Next Account"@),
        r.refresh_current@ == text_or(tray@, "refresh_current"@, "Refresh Current Quota"@),
        r.show_window@ == text_or(tray@, "show_window"@, "Show Main Window"@),
        r.quit@ == text_or(tray@, "quit"@, "Quit Application"@),
        r.no_account@ == text_or(tray@, "no_account"@, "No Account"@),
        r.unknown_quota@ == text_or(tray@, "unknown_quota"@, "Unknown"@),
        r.forbidden@ == text_or(tray@, "forbidden"@, "Account Forbidden"@),
{
    TrayTexts {
        current: lookup(tray, "current", "Current"),
        quota: lookup(tray, "quota", "Quota"),
        switch_next: lookup(tray, "switch_next", "Switch to Next Account"),
        refresh_current: lookup(tray, "refresh_current", "Refresh Current Quota"),
        show_window: lookup(tray, "show_window", "Show Main Window"),
        quit: lookup(tray, "quit", "Quit Application"),
        no_account: lookup(tray, "no_account", "No Account"),
        unknown_quota: lookup(tray, "unknown_quota", "Unknown"),
        forbidden: lookup(tray, "forbidden", "Account Forbidden"),
    }
}

/// The string members of an object's members, in order; other members are skipped.
pub open spec fn string_members(es: Seq<(String, Json)>) -> Seq<(Seq<char>, Seq<char>)>
    decreases es.len(),
{
    if es.len() == 0 {
        Seq::empty()
    } else {
        let rest = string_members(es.drop_last());
        match es.last().1 {
            Json::Str(s) => rest.push((es.last().0@, s@)),
            _ => rest,
        }
    }
}

/// The string entries of the `tray` object of a locale document (none when
/// there is no document or no such object).
pub open spec fn tray_strings(doc: Option<Json>) -> Seq<(Seq<char>, Seq<char>)> {
    match get_opt(doc, "tray"@) {
        Some(Json::Object(es)) => string_members(es@),
        _ => Seq::empty(),
    }
}

/// The plain values of (key, text) entries.
pub open spec fn pair_texts(v: Seq<(String, String)>) -> Seq<(Seq<char>, Seq<char>)> {
    v.map_values(|p: (String, String)| (p.0@, p.1@))
}

/// The string entries of the `tray` object of a parsed locale document.
pub fn tray_entries(doc: &Json) -> (r: Vec<(String, String)>)
    ensures
        pair_texts(r@) == tray_strings(Some(*doc)),
{
    let mut out: Vec<(String, String)> = Vec::new();
    match get_member(doc, "tray") {
        Some(Json::Object(es)) => {
            let mut i: usize = 0;
            while i < es.len()
                invariant
                    i <= es.len(),
                    tray_strings(Some(*doc)) == string_members(es@),
                    pair_texts(out@) == string_members(es@.take(i as int)),
                decreases es.len() - i,
            {
                proof {
                    assert(es@.take(i + 1).drop_last() =~= es@.take(i as int));
                    assert(es@.take(i + 1).last() == es@[i as int]);
                }
                match &es[i].1 {
                    Json::Str(s) => {
                        let ghost b = out@;
                        out.push((es[i].0.clone(), s.clone()));
                        proof {
                            assert(out@.drop_last() =~= b);
                            assert(pair_texts(out@) =~= pair_texts(b).push((es@[i as int].0@, s@)));
                        }
                    },
                    _ => {},
                }
                i += 1;
            }
            proof {
                assert(es@.take(i as int) =~= es@);
            }
        },
        _ => {
            proof {
                assert(pair_texts(out@) =~= Seq::empty());
            }
        },
    }
    out
}

/// The tray entries of a locale file's text; a text that is not JSON gives none.
pub fn load_translations(content: &str) -> (r: Vec<(String, String)>)
    ensures
        pair_texts(r@) == tray_strings(parse_text(content@)),
{
    match parse(content) {
        Some(doc) => tray_entries(&doc),
        None => {
            let out: Vec<(String, String)> = Vec::new();
            proof {
                assert(pair_texts(out@) =~= Seq::empty());
            }
            out
        },
    }
}

} // verus!
