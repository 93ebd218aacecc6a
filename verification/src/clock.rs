//! Wall clock and identifier sources.

use vstd::prelude::*;

verus! {

/// Whether `t` lies in the range of Unix seconds that a chrono date-time can hold
/// (years within about ±262,000).
pub open spec fn clock_range(t: int) -> bool {
    -10_000_000_000_000 < t < 10_000_000_000_000
}

/// The current time as Unix seconds.
///
/// Calls `chrono::Utc::now().timestamp()`. The value depends on the clock; the
/// only claim is that it lies within the range of dates chrono represents
/// (`NaiveDate` years are bounded by ±262,142).
#[verifier::external_body]
pub fn now_unix_seconds() -> (r: i64)
    ensures
        clock_range(r as int),
{
    chrono::Utc::now().timestamp()
}

/// A fresh random identifier in hyphenated form.
///
/// Calls `uuid::Uuid::new_v4()` and formats it with `to_string`, whose
/// hyphenated form is always 36 characters long; the value itself is random.
#[verifier::external_body]
pub fn new_uuid() -> (r: String)
    ensures
        r@.len() == 36,
{
    uuid::Uuid::new_v4().to_string()
}

} // verus!
