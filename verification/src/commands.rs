//! Checks made before the dashboard reads or writes a file.

use vstd::prelude::*;
use crate::i18n::{lowercase, to_lower};
use crate::text::{contains_seq, has_prefix, owned, push_str, starts_with, str_chars, string_from_chars};

verus! {

/// The path prefixes that may never be read or written (compared in lower case).
pub open spec fn sensitive_prefixes() -> Seq<Seq<char>> {
    seq!["/etc/"@, "/var/spool/cron"@, "/root/"@, "/proc/"@, "/sys/"@, "/dev/"@, "c:\\windows"@,
        "c:\\users\\administrator"@, "c:\\pagefile.sys"@]
}

/// Whether a path prefix applies to the lower-cased path.
pub open spec fn prefix_of(lower: Seq<char>) -> spec_fn(Seq<char>) -> bool {
    |p: Seq<char>| has_prefix(lower, p)
}

/// Why a path is refused, if it is: a `..` anywhere, or the first sensitive
/// prefix that the lower-cased path starts with.
pub open spec fn path_error(path: Seq<char>) -> Option<Seq<char>> {
    if contains_seq(path, ".."@) {
        Some("非法路径: 不允许目录遍历"@)
    } else {
        match crate::sorting::first_where(sensitive_prefixes(), prefix_of(lowercase(path))) {
            Some(i) => Some("安全拒绝: 禁止访问系统敏感路径 ("@ + sensitive_prefixes()[i] + ")"@),
            None => None,
        }
    }
}

fn prefix_list() -> (r: Vec<&'static str>)
    ensures
        r@.map_values(|s: &'static str| s@) == sensitive_prefixes(),
{
    let mut v: Vec<&'static str> = Vec::new();
    v.push("/etc/");
    v.push("/var/spool/cron");
    v.push("/root/");
    v.push("/proc/");
    v.push("/sys/");
    v.push("/dev/");
    v.push("c:\\windows");
    v.push("c:\\users\\administrator");
    v.push("c:\\pagefile.sys");
    proof {
        assert(v@.map_values(|s: &'static str| s@) =~= sensitive_prefixes());
    }
    v
}

/// Refuses paths that climb out of a directory (`..`) or reach system files.
pub fn validate_path(path: &str) -> (r: Result<(), String>)
    ensures
        match path_error(path@) {
            Some(e) => r matches Err(m) && m@ == e,
            None => r is Ok,
        },
{
    let p = str_chars(path);
    let dots = str_chars("..");
    if crate::text::find(&p, &dots).is_some() {
        return Err(owned("非法路径: 不允许目录遍历"));
    }
    let lower = str_chars(to_lower(path).as_str());
    let prefixes = prefix_list();
    let ghost ps = prefixes@.map_values(|s: &'static str| s@);
    let ghost f = prefix_of(lowercase(path@));
    let mut i: usize = 0;
    while i < prefixes.len()
        invariant
            i <= prefixes.len(),
            ps == prefixes@.map_values(|s: &'static str| s@),
            ps == sensitive_prefixes(),
            f == prefix_of(lowercase(path@)),
            lower@ == lowercase(path@),
            !contains_seq(path@, ".."@),
            crate::sorting::first_where(ps.take(i as int), f) is None,
        decreases prefixes.len() - i,
    {
        proof {
            crate::sorting::lemma_first_where(ps, f, i as int);
            assert(ps[i as int] == prefixes@[i as int]@);
        }
        if starts_with(&lower, &str_chars(prefixes[i])) {
            proof {
                crate::sorting::lemma_first_where(ps, f, i + 1);
            }
            let mut v: Vec<char> = Vec::new();
            push_str(&mut v, "安全拒绝: 禁止访问系统敏感路径 (");
            push_str(&mut v, prefixes[i]);
            push_str(&mut v, ")");
            return Err(string_from_chars(&v));
        }
        i += 1;
    }
    proof {
        crate::sorting::lemma_first_where(ps, f, i as int);
    }
    Ok(())
}

} // verus!
