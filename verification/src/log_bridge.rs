//! Events sent to the dashboard.

use vstd::prelude::*;
use crate::text::owned;

verus! {

/// The proxy rotated away from a key that was disabled (429 / 5xx).
#[derive(Debug, Clone)]
pub struct KeySwitchedPayload {
    pub platform_id: String,
    pub platform_name: String,
    pub model_name: String,
    pub disabled_key_id: String,
    pub next_key_id: String,
    pub reason: String,
    pub disabled_until: i64,
}

/// The name of the event that carries a [`KeySwitchedPayload`].
pub fn key_switched_event() -> (r: String)
    ensures
        r@ == "key-switched"@,
{
    owned("key-switched")
}

} // verus!
