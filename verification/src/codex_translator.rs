//! Text helpers of the Responses API / Chat Completions translation: tool-call
//! argument repair, output sanitising, inline thinking blocks and SSE
//! fragment reassembly.

use vstd::prelude::*;
use std::borrow::Cow;
use crate::i18n::{lowercase, to_lower};
use crate::json::{self, Json, parse_text};
use crate::key_model_map::string_views;
use crate::text::{
    first_occurrence, has_prefix, index_of, occurs_at, owned, push_all, slice_chars, starts_with, str_chars,
    string_from_chars, trim, trim_end, trim_end_ws, trim_start, trim_start_ws, trim_ws,
};

verus! {

// ---------------------------------------------------------------------------
// Brace scanning
// ---------------------------------------------------------------------------

/// The scanner state after a prefix: brace depth, inside a string, after a backslash.
pub struct Scan {
    pub depth: int,
    pub in_string: bool,
    pub escaped: bool,
}

/// One character scanned (strings and escapes inside them skip braces).
pub open spec fn scan_step(st: Scan, c: char) -> Scan {
    if st.in_string {
        if st.escaped {
            Scan { escaped: false, ..st }
        } else if c == '\\' {
            Scan { escaped: true, ..st }
        } else if c == '"' {
            Scan { in_string: false, ..st }
        } else {
            st
        }
    } else if c == '"' {
        Scan { in_string: true, ..st }
    } else if c == '{' {
        Scan { depth: st.depth + 1, ..st }
    } else if c == '}' {
        Scan { depth: st.depth - 1, ..st }
    } else {
        st
    }
}

/// The scanner state after the whole of `s`.
pub open spec fn scan(s: Seq<char>) -> Scan
    decreases s.len(),
{
    if s.len() == 0 {
        Scan { depth: 0, in_string: false, escaped: false }
    } else {
        scan_step(scan(s.drop_last()), s.last())
    }
}

/// Whether the object that starts the text closes after its first `n` characters.
pub open spec fn closes_at(s: Seq<char>, n: int) -> bool {
    1 <= n <= s.len() && s[n - 1] == '}' && !scan(s.take(n - 1)).in_string && scan(s.take(n)).depth == 0
}

/// The length of the first balanced object at the start of `s`, if it closes.
pub open spec fn object_len(s: Seq<char>) -> Option<int> {
    crate::sorting::first_where(Seq::new((s.len() + 1) as nat, |i: int| i), |n: int| closes_at(s, n))
}

/// The first balanced `{...}` object in the text, if any.
pub open spec fn first_object(text: Seq<char>) -> Option<Seq<char>> {
    match first_occurrence(text, seq!['{']) {
        None => None,
        Some(start) => match object_len(text.skip(start)) {
            Some(n) => Some(text.subrange(start, start + n)),
            None => None,
        },
    }
}

/// Extracts the first balanced `{...}` object from text that may hold prose
/// or code fences around it (braces inside strings do not count).
pub fn extract_json_object(text: &str) -> (r: Option<String>)
    ensures
        match r {
            Some(o) => first_object(text@) == Some(o@),
            None => first_object(text@) is None,
        },
{
    let t = str_chars(text);
    let mut open: Vec<char> = Vec::new();
    open.push('{');
    proof {
        assert(open@ =~= seq!['{']);
    }
    let start = match index_of(&t, &open) {
        Some(s) => s,
        None => return None,
    };
    let rest = slice_chars(&t, start, t.len());
    let ghost rs = rest@;
    proof {
        assert(rs =~= t@.skip(start as int));
    }
    let ghost idx = Seq::new((rs.len() + 1) as nat, |i: int| i);
    let ghost f = |n: int| closes_at(rs, n);
    let mut depth: i128 = 0;
    let mut in_string = false;
    let mut escaped = false;
    let mut i: usize = 0;
    proof {
        assert(rs.take(0) =~= Seq::<char>::empty());
        crate::sorting::lemma_first_where(idx, f, 0);
        crate::sorting::lemma_first_where(idx, f, 1);
        assert(!f(idx[0]));
    }
    while i < rest.len()
        invariant
            i <= rest.len(),
            rs == rest@,
            t@ == text@,
            start <= t@.len(),
            rs == t@.skip(start as int),
            first_occurrence(text@, seq!['{']) == Some(start as int),
            idx == Seq::new((rs.len() + 1) as nat, |k: int| k),
            f == (|n: int| closes_at(rs, n)),
            scan(rs.take(i as int)) == (Scan { depth: depth as int, in_string, escaped }),
            -(i as int) <= depth <= i,
            crate::sorting::first_where(idx.take(i + 1), f) is None,
        decreases rest.len() - i,
    {
        let ch = rest[i];
        proof {
            assert(rs.take(i + 1).drop_last() =~= rs.take(i as int));
            assert(rs.take(i + 1).last() == ch);
            crate::sorting::lemma_first_where(idx, f, i + 1);
            assert(idx[i + 1] == i + 1);
        }
        if in_string {
            if escaped {
                escaped = false;
            } else if ch == '\\' {
                escaped = true;
            } else if ch == '"' {
                in_string = false;
            }
        } else if ch == '"' {
            in_string = true;
        } else if ch == '{' {
            depth = depth + 1;
        } else if ch == '}' {
            depth = depth - 1;
            if depth == 0 {
                proof {
                    assert(f(idx[i + 1]));
                    crate::sorting::lemma_first_where(idx, f, i + 2);
                    assert(object_len(rs) == Some(i + 1));
                    assert(t@.subrange(start as int, start + i + 1) =~= rs.take(i + 1));
                }
                let obj = slice_chars(&rest, 0, i + 1);
                return Some(string_from_chars(&obj));
            }
        }
        i += 1;
        proof {
            if !f(idx[i as int]) {
                crate::sorting::lemma_first_where(idx, f, i as int);
            }
        }
    }
    proof {
        crate::sorting::lemma_first_where(idx, f, rs.len() + 1int);
        assert(idx.take(rs.len() + 1int) =~= idx);
    }
    None
}

fn scan_depth(t: &Vec<char>) -> (r: i128)
    ensures
        r == scan(t@).depth,
{
    let mut depth: i128 = 0;
    let mut in_string = false;
    let mut escaped = false;
    let mut i: usize = 0;
    while i < t.len()
        invariant
            i <= t.len(),
            scan(t@.take(i as int)) == (Scan { depth: depth as int, in_string, escaped }),
            -(i as int) <= depth <= i,
        decreases t.len() - i,
    {
        let ch = t[i];
        proof {
            assert(t@.take(i + 1).drop_last() =~= t@.take(i as int));
            assert(t@.take(i + 1).last() == ch);
        }
        if in_string {
            if escaped {
                escaped = false;
            } else if ch == '\\' {
                escaped = true;
            } else if ch == '"' {
                in_string = false;
            }
        } else if ch == '"' {
            in_string = true;
        } else if ch == '{' {
            depth = depth + 1;
        } else if ch == '}' {
            depth = depth - 1;
        }
        i += 1;
    }
    proof {
        assert(t@.take(i as int) =~= t@);
    }
    depth
}

/// The text with `n` closing braces appended.
pub open spec fn closed_with(text: Seq<char>, n: nat) -> Seq<char> {
    text + Seq::new(n, |k: int| '}')
}

/// The repair of truncated JSON: the missing closing braces appended, when
/// braces are missing and the result parses.
pub open spec fn repaired(text: Seq<char>) -> Option<Seq<char>> {
    let d = scan(text).depth;
    if d <= 0 {
        None
    } else if parse_text(closed_with(text, d as nat)) is Some {
        Some(closed_with(text, d as nat))
    } else {
        None
    }
}

fn chars_parse(t: &Vec<char>) -> (r: bool)
    ensures
        r == parse_text(t@) is Some,
{
    let s = string_from_chars(t);
    json::parse(s.as_str()).is_some()
}

/// Repairs truncated JSON by appending the missing closing braces.
pub fn repair_truncated_json(text: &str) -> (r: Option<String>)
    ensures
        match r {
            Some(o) => repaired(text@) == Some(o@),
            None => repaired(text@) is None,
        },
{
    let t = str_chars(text);
    let d = scan_depth(&t);
    if d <= 0 {
        return None;
    }
    let mut cand = t.clone();
    let mut k: i128 = 0;
    while k < d
        invariant
            0 <= k <= d,
            cand@ == closed_with(t@, k as nat),
        decreases d - k,
    {
        cand.push('}');
        k = k + 1;
        proof {
            assert(cand@ =~= closed_with(t@, k as nat));
        }
    }
    if chars_parse(&cand) {
        Some(string_from_chars(&cand))
    } else {
        None
    }
}

/// Tool-call arguments as upstreams accept them: trimmed valid JSON as is;
/// otherwise an embedded object that parses, or a brace repair; `{}` when
/// nothing works or the text is blank.
pub open spec fn sanitized_arguments(raw: Seq<char>) -> Seq<char> {
    let t = trim_ws(raw);
    if t.len() == 0 {
        "{}"@
    } else if parse_text(t) is Some {
        t
    } else if first_object(t) is Some && parse_text(first_object(t).unwrap()) is Some {
        first_object(t).unwrap()
    } else if repaired(t) is Some {
        repaired(t).unwrap()
    } else {
        "{}"@
    }
}

/// Makes tool-call arguments valid JSON (see [`sanitized_arguments`]).
pub fn sanitize_tool_arguments(raw: &str) -> (r: String)
    ensures
        r@ == sanitized_arguments(raw@),
{
    let t = trim(&str_chars(raw));
    if t.len() == 0 {
        return owned("{}");
    }
    if chars_parse(&t) {
        return string_from_chars(&t);
    }
    let ts = string_from_chars(&t);
    match extract_json_object(ts.as_str()) {
        Some(o) => {
            if json::parse(o.as_str()).is_some() {
                return o;
            }
        },
        None => {},
    }
    match repair_truncated_json(ts.as_str()) {
        Some(r) => r,
        None => owned("{}"),
    }
}

// ---------------------------------------------------------------------------
// Output sanitising
// ---------------------------------------------------------------------------

/// `s` with every occurrence of `t` removed, scanning left to right.
pub open spec fn remove_all(s: Seq<char>, t: Seq<char>) -> Seq<char>
    decreases s.len(),
{
    if s.len() == 0 || t.len() == 0 {
        s
    } else if has_prefix(s, t) {
        remove_all(s.skip(t.len() as int), t)
    } else {
        seq![s[0]] + remove_all(s.skip(1), t)
    }
}

/// The synthetic control tokens, in the order they are removed.
pub open spec fn synthetic_tokens() -> Seq<Seq<char>> {
    seq!["<|endoftext|>"@, "<|eot_id|>"@, "|im_end|"@, "|im_start|"@, "<|end|>"@, "<end_of_turn>"@, "<|END_OF_TURN_TOKEN|>"@]
}

/// `s` with each of the tokens removed in turn.
pub open spec fn remove_tokens(s: Seq<char>, ts: Seq<Seq<char>>) -> Seq<char>
    decreases ts.len(),
{
    if ts.len() == 0 {
        s
    } else {
        remove_all(remove_tokens(s, ts.drop_last()), ts.last())
    }
}

/// Number of consecutive `</s>` at the start of `s`.
pub open spec fn eos_run(s: Seq<char>) -> nat
    decreases s.len(),
{
    if s.len() >= 4 && has_prefix(s, "</s>"@) {
        1 + eos_run(s.skip(4))
    } else {
        0
    }
}

/// A run of `</s>` fits in the text, and a text that starts with one has a run.
pub proof fn lemma_eos_run(s: Seq<char>)
    ensures
        4 * eos_run(s) <= s.len(),
        has_prefix(s, "</s>"@) ==> eos_run(s) >= 1,
    decreases s.len(),
{
    reveal_strlit("</s>");
    if s.len() >= 4 && has_prefix(s, "</s>"@) {
        lemma_eos_run(s.skip(4));
    }
}

/// `s` with runs of two or more `</s>` removed (a single `</s>` stays).
pub open spec fn strip_eos_runs(s: Seq<char>) -> Seq<char>
    decreases s.len(),
{
    if s.len() == 0 {
        s
    } else if has_prefix(s, "</s>"@) {
        proof {
            lemma_eos_run(s);
        }
        if eos_run(s) >= 2 {
            strip_eos_runs(s.skip(4 * eos_run(s) as int))
        } else {
            "</s>"@ + strip_eos_runs(s.skip(4))
        }
    } else {
        seq![s[0]] + strip_eos_runs(s.skip(1))
    }
}

/// Model output with leaked control tokens removed.
pub open spec fn sanitized_output(s: Seq<char>) -> Seq<char> {
    strip_eos_runs(remove_tokens(s, synthetic_tokens()))
}

fn remove_all_exec(s: &Vec<char>, t: &Vec<char>) -> (r: Vec<char>)
    ensures
        r@ == remove_all(s@, t@),
{
    if t.len() == 0 {
        return s.clone();
    }
    let mut out: Vec<char> = Vec::new();
    let mut i: usize = 0;
    assert(out@ + remove_all(s@.skip(0), t@) =~= remove_all(s@, t@)) by {
        assert(s@.skip(0) =~= s@);
    }
    while i < s.len()
        invariant
            i <= s.len(),
            t@.len() > 0,
            out@ + remove_all(s@.skip(i as int), t@) == remove_all(s@, t@),
        decreases s.len() - i,
    {
        let ghost rest = s@.skip(i as int);
        if crate::text::matches_at(s, t, i) {
            proof {
                assert(rest.subrange(0, t@.len() as int) =~= s@.subrange(i as int, i + t@.len()));
                assert(rest.skip(t@.len() as int) =~= s@.skip(i + t@.len()));
            }
            i = i + t.len();
        } else {
            proof {
                if has_prefix(rest, t@) {
                    assert(s@.subrange(i as int, i + t@.len()) =~= rest.subrange(0, t@.len() as int));
                }
                assert(rest.skip(1) =~= s@.skip(i + 1));
                assert(out@.push(s@[i as int]) + remove_all(s@.skip(i + 1), t@) =~= out@ + (seq![rest[0]] + remove_all(rest.skip(1), t@)));
            }
            out.push(s[i]);
            i += 1;
        }
    }
    proof {
        assert(s@.skip(i as int) =~= Seq::<char>::empty());
        assert(out@ + Seq::<char>::empty() =~= out@);
    }
    out
}

fn eos_len(s: &Vec<char>, i: usize, eos: &Vec<char>) -> (r: usize)
    requires
        i <= s.len(),
        eos@ == "</s>"@,
    ensures
        r == eos_run(s@.skip(i as int)),
        i + 4 * r <= s.len(),
{
    proof {
        reveal_strlit("</s>");
    }
    let mut j = i;
    let mut count: usize = 0;
    while s.len() - j >= 4 && crate::text::matches_at(s, eos, j)
        invariant
            i <= j <= s.len(),
            j == i + 4 * count,
            eos@ == "</s>"@,
            eos@.len() == 4,
            eos_run(s@.skip(i as int)) == count + eos_run(s@.skip(j as int)),
        decreases s.len() - j,
    {
        proof {
            let rest = s@.skip(j as int);
            assert(rest.subrange(0, 4) =~= s@.subrange(j as int, j + 4));
            assert(rest.skip(4) =~= s@.skip(j + 4));
        }
        j = j + 4;
        count = count + 1;
    }
    proof {
        let rest = s@.skip(j as int);
        if rest.len() >= 4 && has_prefix(rest, "</s>"@) {
            assert(s@.subrange(j as int, j + 4) =~= rest.subrange(0, 4));
        }
    }
    count
}

fn strip_eos_exec(s: &Vec<char>) -> (r: Vec<char>)
    ensures
        r@ == strip_eos_runs(s@),
{
    let eos = str_chars("</s>");
    proof {
        reveal_strlit("</s>");
    }
    let mut out: Vec<char> = Vec::new();
    let mut i: usize = 0;
    assert(out@ + strip_eos_runs(s@.skip(0)) =~= strip_eos_runs(s@)) by {
        assert(s@.skip(0) =~= s@);
    }
    while i < s.len()
        invariant
            i <= s.len(),
            eos@ == "</s>"@,
            eos@.len() == 4,
            out@ + strip_eos_runs(s@.skip(i as int)) == strip_eos_runs(s@),
        decreases s.len() - i,
    {
        let ghost rest = s@.skip(i as int);
        if crate::text::matches_at(s, &eos, i) {
            proof {
                assert(rest.subrange(0, 4) =~= s@.subrange(i as int, i + 4));
            }
            let n = eos_len(s, i, &eos);
            if n >= 2 {
                proof {
                    assert(rest.skip(4 * n as int) =~= s@.skip(i + 4 * n));
                }
                i = i + 4 * n;
            } else {
                proof {
                    assert(rest.skip(4) =~= s@.skip(i + 4));
                    assert(out@ + eos@ + strip_eos_runs(s@.skip(i + 4)) =~= out@ + ("</s>"@ + strip_eos_runs(rest.skip(4))));
                }
                push_all(&mut out, &eos);
                i = i + 4;
            }
        } else {
            proof {
                if has_prefix(rest, "</s>"@) {
                    assert(s@.subrange(i as int, i + 4) =~= rest.subrange(0, 4));
                }
                assert(rest.skip(1) =~= s@.skip(i + 1));
                assert(out@.push(s@[i as int]) + strip_eos_runs(s@.skip(i + 1)) =~= out@ + (seq![rest[0]] + strip_eos_runs(rest.skip(1))));
            }
            out.push(s[i]);
            i += 1;
        }
    }
    proof {
        assert(s@.skip(i as int) =~= Seq::<char>::empty());
        assert(out@ + Seq::<char>::empty() =~= out@);
    }
    out
}

fn token_removed(s: Vec<char>, token: &str) -> (r: Vec<char>)
    ensures
        r@ == remove_all(s@, token@),
{
    remove_all_exec(&s, &str_chars(token))
}

/// Removes leaked control tokens from model output (see [`sanitized_output`]);
/// borrows the input when nothing was removed.
pub fn sanitize_output_text<'a>(text: &'a str) -> (r: Cow<'a, str>)
    ensures
        r@ == sanitized_output(text@),
        (r is Borrowed) == (sanitized_output(text@) == text@),
{
    let t = str_chars(text);
    if t.len() == 0 {
        proof {
            reveal_with_fuel(remove_tokens, 8);
            assert(sanitized_output(text@) =~= text@);
        }
        return Cow::Borrowed(text);
    }
    let r0 = token_removed(t.clone(), "<|endoftext|>");
    let r1 = token_removed(r0, "<|eot_id|>");
    let r2 = token_removed(r1, "|im_end|");
    let r3 = token_removed(r2, "|im_start|");
    let r4 = token_removed(r3, "<|end|>");
    let r5 = token_removed(r4, "<end_of_turn>");
    let r6 = token_removed(r5, "<|END_OF_TURN_TOKEN|>");
    proof {
        reveal_with_fuel(remove_tokens, 8);
        assert(synthetic_tokens().take(0) =~= Seq::<Seq<char>>::empty());
        assert(r6@ == remove_tokens(text@, synthetic_tokens())) by {
            let ts = synthetic_tokens();
            assert(ts.drop_last() =~= seq!["<|endoftext|>"@, "<|eot_id|>"@, "|im_end|"@, "|im_start|"@, "<|end|>"@, "<end_of_turn>"@]);
            assert(ts.drop_last().drop_last() =~= seq!["<|endoftext|>"@, "<|eot_id|>"@, "|im_end|"@, "|im_start|"@, "<|end|>"@]);
            assert(ts.drop_last().drop_last().drop_last() =~= seq!["<|endoftext|>"@, "<|eot_id|>"@, "|im_end|"@, "|im_start|"@]);
            assert(ts.drop_last().drop_last().drop_last().drop_last() =~= seq!["<|endoftext|>"@, "<|eot_id|>"@, "|im_end|"@]);
            assert(ts.drop_last().drop_last().drop_last().drop_last().drop_last() =~= seq!["<|endoftext|>"@, "<|eot_id|>"@]);
            assert(ts.drop_last().drop_last().drop_last().drop_last().drop_last().drop_last() =~= seq!["<|endoftext|>"@]);
            assert(seq!["<|endoftext|>"@].drop_last() =~= Seq::<Seq<char>>::empty());
        }
    }
    let cleaned = strip_eos_exec(&r6);
    if chars_same(&cleaned, &t) {
        Cow::Borrowed(text)
    } else {
        Cow::Owned(string_from_chars(&cleaned))
    }
}

fn chars_same(a: &Vec<char>, b: &Vec<char>) -> (r: bool)
    ensures
        r == (a@ == b@),
{
    if a.len() != b.len() {
        return false;
    }
    let mut i: usize = 0;
    while i < a.len()
        invariant
            a.len() == b.len(),
            i <= a.len(),
            forall|k: int| 0 <= k < i ==> a@[k] == b@[k],
        decreases a.len() - i,
    {
        if a[i] != b[i] {
            return false;
        }
        i += 1;
    }
    assert(a@ =~= b@);
    true
}

// ---------------------------------------------------------------------------
// Inline thinking blocks
// ---------------------------------------------------------------------------

/// Whether the text (leading white space skipped, lower-cased) opens an inline
/// thinking block.
pub open spec fn thinking_marker(text: Seq<char>) -> bool {
    let l = lowercase(trim_start_ws(text));
    ||| has_prefix(l, ">think"@)
    ||| has_prefix(l, ">thinking"@)
    ||| has_prefix(l, ">reasoning"@)
    ||| has_prefix(l, "<think"@)
    ||| has_prefix(l, "<thinking"@)
    ||| has_prefix(l, "<reasoning"@)
    ||| has_prefix(l, "<odk"@)
    ||| has_prefix(l, "[think"@)
    ||| has_prefix(l, "[thinking"@)
    ||| has_prefix(l, "[reasoning"@)
}

fn prefixed(t: &Vec<char>, p: &str) -> (r: bool)
    ensures
        r == has_prefix(t@, p@),
{
    starts_with(t, &str_chars(p))
}

/// Whether text starts with an inline thinking-block marker (see [`thinking_marker`]).
pub fn is_thinking_marker(text: &str) -> (r: bool)
    ensures
        r == thinking_marker(text@),
{
    let ts = string_from_chars(&trim_start(&str_chars(text)));
    let l = str_chars(to_lower(ts.as_str()).as_str());
    prefixed(&l, ">think") || prefixed(&l, ">thinking") || prefixed(&l, ">reasoning") || prefixed(&l, "<think")
        || prefixed(&l, "<thinking") || prefixed(&l, "<reasoning") || prefixed(&l, "<odk") || prefixed(&l, "[think")
        || prefixed(&l, "[thinking") || prefixed(&l, "[reasoning")
}

/// The earlier of two found positions (the first one on a tie).
pub open spec fn earlier(best: Option<(int, int)>, found: Option<int>, len: int) -> Option<(int, int)> {
    match found {
        None => best,
        Some(p) => match best {
            None => Some((p, len)),
            Some((bp, bl)) => if p < bp { Some((p, len)) } else { best },
        },
    }
}

/// Where an inline thinking block ends, as (character position, delimiter
/// length): for tag-style blocks the earliest closing marker (`</thinking>`
/// before `</think>` at the same position), else a blank line; for other
/// blocks the first blank line.
pub open spec fn thinking_delimiter(text: Seq<char>) -> Option<(int, int)> {
    let tag_style = has_prefix(lowercase(trim_start_ws(text)), "<"@);
    let blank = match first_occurrence(text, "\n\n"@) { Some(p) => Some((p, 2int)), None => None };
    if tag_style {
        let b0 = earlier(None, first_occurrence(text, "</thinking>"@), 11);
        let b1 = earlier(b0, first_occurrence(text, "</think>"@), 8);
        let b2 = earlier(b1, first_occurrence(text, "</reasoning>"@), 12);
        let b3 = earlier(b2, first_occurrence(text, "</odk>"@), 6);
        let b4 = earlier(b3, first_occurrence(text, " response"@), 9);
        if b4 is Some { b4 } else { blank }
    } else {
        blank
    }
}

fn found_at(t: &Vec<char>, p: &str) -> (r: Option<usize>)
    ensures
        match r {
            Some(i) => first_occurrence(t@, p@) == Some(i as int) && i + p@.len() <= t@.len(),
            None => first_occurrence(t@, p@) is None,
        },
{
    index_of(t, &str_chars(p))
}

fn pick(best: Option<(usize, usize)>, found: Option<usize>, len: usize) -> (r: Option<(usize, usize)>)
    ensures
        match r {
            Some((p, l)) => earlier(match best { Some((a, b)) => Some((a as int, b as int)), None => None },
                match found { Some(f) => Some(f as int), None => None }, len as int) == Some((p as int, l as int)),
            None => earlier(match best { Some((a, b)) => Some((a as int, b as int)), None => None },
                match found { Some(f) => Some(f as int), None => None }, len as int) is None,
        },
{
    match found {
        None => best,
        Some(p) => match best {
            None => Some((p, len)),
            Some((bp, bl)) => if p < bp { Some((p, len)) } else { best },
        },
    }
}

/// Where an inline thinking block ends (see [`thinking_delimiter`]).
pub fn find_thinking_delimiter(text: &str) -> (r: Option<(usize, usize)>)
    ensures
        match r {
            Some((p, l)) => thinking_delimiter(text@) == Some((p as int, l as int)) && p + l <= text@.len(),
            None => thinking_delimiter(text@) is None,
        },
{
    proof {
        reveal_strlit("</thinking>");
        reveal_strlit("</think>");
        reveal_strlit("</reasoning>");
        reveal_strlit("</odk>");
        reveal_strlit(" response");
        reveal_strlit("\n\n");
    }
    let t = str_chars(text);
    let ts = string_from_chars(&trim_start(&t));
    let l = str_chars(to_lower(ts.as_str()).as_str());
    let tag_style = prefixed(&l, "<");
    let blank = match found_at(&t, "\n\n") {
        Some(p) => Some((p, 2usize)),
        None => None,
    };
    if tag_style {
        let b0 = pick(None, found_at(&t, "</thinking>"), 11);
        let b1 = pick(b0, found_at(&t, "</think>"), 8);
        let b2 = pick(b1, found_at(&t, "</reasoning>"), 12);
        let b3 = pick(b2, found_at(&t, "</odk>"), 6);
        let b4 = pick(b3, found_at(&t, " response"), 9);
        if b4.is_some() { b4 } else { blank }
    } else {
        blank
    }
}

/// The thinking and the remaining text of a message: `(None, text)` without a
/// marker; the whole text as thinking when the block does not end; otherwise
/// the block (trailing white space dropped) and the rest (leading white space
/// dropped, `None` when empty).
pub open spec fn thinking_split(text: Seq<char>) -> (Option<Seq<char>>, Option<Seq<char>>) {
    if !thinking_marker(text) {
        (None, Some(text))
    } else {
        match thinking_delimiter(text) {
            Some((p, l)) => {
                let rest = trim_start_ws(text.skip(p + l));
                (Some(trim_end_ws(text.take(p))), if rest.len() == 0 { None } else { Some(rest) })
            },
            None => (Some(text), None),
        }
    }
}

/// Splits a message into inline thinking and the remaining text (see [`thinking_split`]).
pub fn split_thinking_content(text: &str) -> (r: (Option<String>, Option<String>))
    ensures
        (crate::diagnostics::chars_of(r.0), crate::diagnostics::chars_of(r.1)) == thinking_split(text@),
{
    if !is_thinking_marker(text) {
        return (None, Some(owned(text)));
    }
    match find_thinking_delimiter(text) {
        Some((pos, len)) => {
            let t = str_chars(text);
            let thinking = trim_end(&slice_chars(&t, 0, pos));
            let remaining = trim_start(&slice_chars(&t, pos + len, t.len()));
            proof {
                assert(t@.subrange(0, pos as int) =~= text@.take(pos as int));
                assert(t@.subrange((pos + len) as int, t@.len() as int) =~= text@.skip(pos + len));
            }
            let rest = if remaining.len() == 0 { None } else { Some(string_from_chars(&remaining)) };
            (Some(string_from_chars(&thinking)), rest)
        },
        None => (Some(owned(text)), None),
    }
}

/// Reasoning text of a message or delta object: the first non-empty string
/// among its reasoning fields.
pub open spec fn reasoning_of(obj: Json) -> Option<Seq<char>> {
    let keys = seq!["reasoning_content"@, "reasoning"@, "thinking"@, "thinking_content"@, "reasoning_text"@, "thought"@, "thoughts"@];
    match crate::sorting::first_where(keys, |k: Seq<char>| match json::str_of(json::get(obj, k)) { Some(v) => v.len() > 0, None => false }) {
        Some(i) => json::str_of(json::get(obj, keys[i])),
        None => None,
    }
}

fn nonempty_field<'a>(obj: &'a Json, key: &str) -> (r: Option<&'a String>)
    ensures
        match r {
            Some(v) => json::str_of(json::get(*obj, key@)) == Some(v@) && v@.len() > 0,
            None => !(match json::str_of(json::get(*obj, key@)) { Some(v) => v.len() > 0, None => false }),
        },
{
    match json::as_str(json::get_member(obj, key)) {
        Some(v) => if v.as_str().is_empty() { None } else { Some(v) },
        None => None,
    }
}

/// The reasoning text of a message or delta object (see [`reasoning_of`]).
pub fn extract_reasoning_content<'a>(obj: &'a Json) -> (r: Option<&'a String>)
    ensures
        match r {
            Some(v) => reasoning_of(*obj) == Some(v@),
            None => reasoning_of(*obj) is None,
        },
{
    let ghost keys = seq!["reasoning_content"@, "reasoning"@, "thinking"@, "thinking_content"@, "reasoning_text"@, "thought"@, "thoughts"@];
    let ghost f = |k: Seq<char>| match json::str_of(json::get(*obj, k)) { Some(v) => v.len() > 0, None => false };
    proof {
        reveal_with_fuel(crate::sorting::first_where, 8);
        assert(keys.drop_last() =~= seq!["reasoning_content"@, "reasoning"@, "thinking"@, "thinking_content"@, "reasoning_text"@, "thought"@]);
        assert(keys.drop_last().drop_last() =~= seq!["reasoning_content"@, "reasoning"@, "thinking"@, "thinking_content"@, "reasoning_text"@]);
        assert(keys.drop_last().drop_last().drop_last() =~= seq!["reasoning_content"@, "reasoning"@, "thinking"@, "thinking_content"@]);
        assert(keys.drop_last().drop_last().drop_last().drop_last() =~= seq!["reasoning_content"@, "reasoning"@, "thinking"@]);
        assert(keys.drop_last().drop_last().drop_last().drop_last().drop_last() =~= seq!["reasoning_content"@, "reasoning"@]);
        assert(keys.drop_last().drop_last().drop_last().drop_last().drop_last().drop_last() =~= seq!["reasoning_content"@]);
        assert(seq!["reasoning_content"@].drop_last() =~= Seq::<Seq<char>>::empty());
    }
    if let Some(v) = nonempty_field(obj, "reasoning_content") { return Some(v); }
    if let Some(v) = nonempty_field(obj, "reasoning") { return Some(v); }
    if let Some(v) = nonempty_field(obj, "thinking") { return Some(v); }
    if let Some(v) = nonempty_field(obj, "thinking_content") { return Some(v); }
    if let Some(v) = nonempty_field(obj, "reasoning_text") { return Some(v); }
    if let Some(v) = nonempty_field(obj, "thought") { return Some(v); }
    if let Some(v) = nonempty_field(obj, "thoughts") { return Some(v); }
    None
}

// ---------------------------------------------------------------------------
// SSE fragment reassembly
// ---------------------------------------------------------------------------

/// Bytes of unparseable fragments kept before they are dropped.
pub const SSE_FRAGMENT_BUFFER_LIMIT: usize = 1048576;

/// The fragments run together.
pub open spec fn concat_all(fs: Seq<Seq<char>>) -> Seq<char>
    decreases fs.len(),
{
    if fs.len() == 0 { Seq::empty() } else { concat_all(fs.drop_last()) + fs.last() }
}

/// The fragments joined by newlines.
pub open spec fn join_lines(fs: Seq<Seq<char>>) -> Seq<char>
    decreases fs.len(),
{
    if fs.len() == 0 {
        Seq::empty()
    } else if fs.len() == 1 {
        fs[0]
    } else {
        join_lines(fs.drop_last()) + seq!['\n'] + fs.last()
    }
}

/// The document the fragments form: run together, or else joined by newlines.
pub open spec fn fragments_doc(fs: Seq<Seq<char>>) -> Option<Json> {
    match parse_text(concat_all(fs)) {
        Some(v) => Some(v),
        None => parse_text(join_lines(fs)),
    }
}

/// Parses a JSON document from SSE line fragments (see [`fragments_doc`]).
pub fn try_parse_sse_fragments(fragments: &Vec<String>) -> (r: Option<Json>)
    ensures
        r == fragments_doc(string_views(fragments@)),
{
    let ghost fv = string_views(fragments@);
    let mut all: Vec<char> = Vec::new();
    let mut joined: Vec<char> = Vec::new();
    let mut i: usize = 0;
    while i < fragments.len()
        invariant
            i <= fragments.len(),
            fv == string_views(fragments@),
            all@ == concat_all(fv.take(i as int)),
            joined@ == join_lines(fv.take(i as int)),
        decreases fragments.len() - i,
    {
        proof {
            assert(fv.take(i + 1).drop_last() =~= fv.take(i as int));
            assert(fv.take(i + 1).last() == fragments@[i as int]@);
        }
        let f = str_chars(fragments[i].as_str());
        push_all(&mut all, &f);
        if i > 0 {
            joined.push('\n');
            push_all(&mut joined, &f);
            proof {
                assert(joined@ =~= join_lines(fv.take(i as int)) + seq!['\n'] + f@);
            }
        } else {
            push_all(&mut joined, &f);
            proof {
                assert(fv.take(1) =~= seq![fv[0]]);
                assert(joined@ =~= fv[0]);
            }
        }
        i += 1;
    }
    proof {
        assert(fv.take(i as int) =~= fv);
    }
    let a = string_from_chars(&all);
    match json::parse(a.as_str()) {
        Some(v) => Some(v),
        None => {
            let j = string_from_chars(&joined);
            json::parse(j.as_str())
        },
    }
}

/// The number of bytes of a character in UTF-8.
pub open spec fn utf8_width(c: char) -> nat {
    if (c as u32) < 0x80 { 1 } else if (c as u32) < 0x800 { 2 } else if (c as u32) < 0x10000 { 3 } else { 4 }
}

/// The number of bytes of a text in UTF-8.
pub open spec fn utf8_len(s: Seq<char>) -> nat
    decreases s.len(),
{
    if s.len() == 0 { 0 } else { utf8_len(s.drop_last()) + utf8_width(s.last()) }
}

/// The number of bytes of the fragments.
pub open spec fn total_bytes(fs: Seq<Seq<char>>) -> nat
    decreases fs.len(),
{
    if fs.len() == 0 { 0 } else { total_bytes(fs.drop_last()) + utf8_len(fs.last()) }
}

fn over_limit(fs: &Vec<String>) -> (r: bool)
    ensures
        r == (total_bytes(string_views(fs@)) > SSE_FRAGMENT_BUFFER_LIMIT),
{
    let ghost fv = string_views(fs@);
    let mut total: usize = 0;
    let mut i: usize = 0;
    while i < fs.len()
        invariant
            i <= fs.len(),
            fv == string_views(fs@),
            total == total_bytes(fv.take(i as int)),
            total <= SSE_FRAGMENT_BUFFER_LIMIT,
        decreases fs.len() - i,
    {
        proof {
            assert(fv.take(i + 1).drop_last() =~= fv.take(i as int));
            assert(fv.take(i + 1).last() == fs@[i as int]@);
        }
        let cs = str_chars(fs[i].as_str());
        let mut k: usize = 0;
        let ghost base = total;
        while k < cs.len()
            invariant
                k <= cs.len(),
                0 <= i < fs.len(),
                fv == string_views(fs@),
                cs@ == fv[i as int],
                base == total_bytes(fv.take(i as int)),
                total == base + utf8_len(cs@.take(k as int)),
                base <= SSE_FRAGMENT_BUFFER_LIMIT,
                total <= SSE_FRAGMENT_BUFFER_LIMIT,
            decreases cs.len() - k,
        {
            proof {
                assert(cs@.take(k + 1).drop_last() =~= cs@.take(k as int));
            }
            let c = cs[k];
            let w: usize = if (c as u32) < 0x80 { 1 } else if (c as u32) < 0x800 { 2 } else if (c as u32) < 0x10000 { 3 } else { 4 };
            total = total + w;
            k += 1;
            if total > SSE_FRAGMENT_BUFFER_LIMIT {
                proof {
                    lemma_total_grows(fv, i as int);
                    lemma_utf8_prefix(cs@, k as int);
                }
                return true;
            }
        }
        proof {
            assert(cs@.take(k as int) =~= cs@);
        }
        i += 1;
    }
    proof {
        assert(fv.take(i as int) =~= fv);
    }
    false
}

proof fn lemma_utf8_prefix(s: Seq<char>, k: int)
    requires
        0 <= k <= s.len(),
    ensures
        utf8_len(s.take(k)) <= utf8_len(s),
    decreases s.len() - k,
{
    if k < s.len() {
        lemma_utf8_prefix(s, k + 1);
        assert(s.take(k + 1).drop_last() =~= s.take(k));
    } else {
        assert(s.take(k) =~= s);
    }
}

proof fn lemma_total_grows(fs: Seq<Seq<char>>, i: int)
    requires
        0 <= i < fs.len(),
    ensures
        total_bytes(fs.take(i)) + utf8_len(fs[i]) <= total_bytes(fs),
{
    assert(fs.take(i + 1).drop_last() =~= fs.take(i));
    lemma_total_mono(fs, i + 1);
}

proof fn lemma_total_mono(fs: Seq<Seq<char>>, i: int)
    requires
        0 <= i <= fs.len(),
    ensures
        total_bytes(fs.take(i)) <= total_bytes(fs),
    decreases fs.len() - i,
{
    if i < fs.len() {
        lemma_total_mono(fs, i + 1);
        assert(fs.take(i + 1).drop_last() =~= fs.take(i));
    } else {
        assert(fs.take(i) =~= fs);
    }
}

/// The document an SSE data line yields and the fragments kept afterwards,
/// given the fragments kept before.
pub open spec fn sse_line_result(pending: Seq<Seq<char>>, data: Seq<char>) -> (Option<Json>, Seq<Seq<char>>) {
    let with = pending.push(data);
    match parse_text(data) {
        Some(j) => if pending.len() == 0 {
            (Some(j), pending)
        } else {
            match fragments_doc(with) {
                Some(c) => (Some(c), Seq::empty()),
                None => (Some(j), Seq::empty()),
            }
        },
        None => match fragments_doc(with) {
            Some(c) => (Some(c), Seq::empty()),
            None => (None, if total_bytes(with) > SSE_FRAGMENT_BUFFER_LIMIT { Seq::empty() } else { with }),
        },
    }
}

/// Parses one SSE data line, reassembling payloads that relays split across
/// lines (see [`sse_line_result`]).
pub fn parse_sse_line(pending: &mut Vec<String>, data: &str) -> (r: Option<Json>)
    ensures
        r == sse_line_result(string_views(old(pending)@), data@).0,
        string_views(final(pending)@) == sse_line_result(string_views(old(pending)@), data@).1,
{
    let d = owned(data);
    let ghost before = pending@;
    proof {
        assert(string_views(before.push(d)) =~= string_views(before).push(data@));
    }
    match json::parse(data) {
        Some(j) => {
            if pending.len() == 0 {
                return Some(j);
            }
            pending.push(d);
            match try_parse_sse_fragments(pending) {
                Some(c) => {
                    pending.clear();
                    proof { assert(string_views(pending@) =~= Seq::<Seq<char>>::empty()); }
                    Some(c)
                },
                None => {
                    pending.clear();
                    proof { assert(string_views(pending@) =~= Seq::<Seq<char>>::empty()); }
                    Some(j)
                },
            }
        },
        None => {
            pending.push(d);
            match try_parse_sse_fragments(pending) {
                Some(c) => {
                    pending.clear();
                    proof { assert(string_views(pending@) =~= Seq::<Seq<char>>::empty()); }
                    Some(c)
                },
                None => {
                    if over_limit(pending) {
                        pending.clear();
                        proof { assert(string_views(pending@) =~= Seq::<Seq<char>>::empty()); }
                    }
                    None
                },
            }
        },
    }
}

} // verus!
