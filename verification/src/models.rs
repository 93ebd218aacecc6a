//! The persisted data model: platforms, models, API keys, profiles and the
//! application configuration.

use vstd::prelude::*;
use crate::clock;
use crate::sorting::Ordered;
use crate::text::{copy_opt_string, owned};

verus! {

/// Status of an API key.
#[derive(Debug, Clone, Copy, PartialEq, Eq, Structural)]
pub enum KeyStatus {
    /// Active and ready for use.
    Active,
    /// Temporarily or permanently disabled.
    Disabled,
}

impl Default for KeyStatus {
    fn default() -> (r: Self)
        ensures
            r == KeyStatus::Active,
    {
        KeyStatus::Active
    }
}

/// An API key of a platform.
#[derive(Debug, Clone)]
pub struct ApiKey {
    pub id: String,
    /// Platform the key belongs to.
    pub platform_id: String,
    /// Display name.
    pub name: String,
    /// The secret value.
    pub key_value: String,
    pub status: KeyStatus,
    /// Why the key was disabled.
    pub disabled_reason: Option<String>,
    /// Until when the key is disabled (Unix seconds); `None` while disabled means for good.
    pub disabled_until: Option<i64>,
    pub sort_order: i32,
    /// Creation time (Unix seconds).
    pub created_at: i64,
}

impl ApiKey {
    /// Whether the key may serve requests at time `now`: active keys always,
    /// disabled keys only once a temporary disable has run out.
    pub open spec fn active_at(&self, now: int) -> bool {
        match self.status {
            KeyStatus::Active => true,
            KeyStatus::Disabled => match self.disabled_until {
                Some(until) => now >= until,
                None => false,
            },
        }
    }

    /// A new active key, created now.
    pub fn new(id: String, platform_id: String, name: String, key_value: String) -> (r: Self)
        ensures
            r.id == id,
            r.platform_id == platform_id,
            r.name == name,
            r.key_value == key_value,
            r.status == KeyStatus::Active,
            r.disabled_reason.is_none(),
            r.disabled_until.is_none(),
            r.sort_order == 0,
    {
        ApiKey {
            id,
            platform_id,
            name,
            key_value,
            status: KeyStatus::Active,
            disabled_reason: None,
            disabled_until: None,
            sort_order: 0,
            created_at: clock::now_unix_seconds(),
        }
    }

    /// Whether the key may serve requests at time `now`.
    pub fn is_active_at(&self, now: i64) -> (r: bool)
        ensures
            r == self.active_at(now as int),
    {
        if self.status == KeyStatus::Disabled {
            match self.disabled_until {
                Some(until) => now >= until,
                None => false,
            }
        } else {
            true
        }
    }

    /// Whether the key may serve requests now. Active keys always may, keys
    /// disabled without an end never may; a temporary disable depends on the clock.
    pub fn is_active(&self) -> (r: bool)
        ensures
            self.status == KeyStatus::Active ==> r,
            self.status == KeyStatus::Disabled && self.disabled_until.is_none() ==> !r,
            r ==> exists|now: int| self.active_at(now),
    {
        let now = clock::now_unix_seconds();
        self.is_active_at(now)
    }
}

impl Ordered for ApiKey {
    open spec fn order_of(&self) -> int {
        self.sort_order as int
    }

    open spec fn same(&self, other: &Self) -> bool {
        *self == *other
    }

    proof fn lemma_same(a: &Self, b: &Self) {
    }

    fn order(&self) -> (r: i32) {
        self.sort_order
    }

    fn duplicate(&self) -> (r: Self) {
        ApiKey {
            id: self.id.clone(),
            platform_id: self.platform_id.clone(),
            name: self.name.clone(),
            key_value: self.key_value.clone(),
            status: self.status,
            disabled_reason: copy_opt_string(&self.disabled_reason),
            disabled_until: self.disabled_until,
            sort_order: self.sort_order,
            created_at: self.created_at,
        }
    }
}

/// Default request limit per 5-hour window.
pub open spec fn spec_default_5hour() -> u32 {
    3000
}

/// Default request limit per day.
pub open spec fn spec_default_day() -> u32 {
    10000
}

/// Default request limit per month.
pub open spec fn spec_default_month() -> u32 {
    100000
}

/// Default request limit per 5-hour window.
#[verifier::when_used_as_spec(spec_default_5hour)]
pub fn default_5hour() -> (r: u32)
    ensures
        r == spec_default_5hour(),
{
    3000
}

/// Default request limit per day.
#[verifier::when_used_as_spec(spec_default_day)]
pub fn default_day() -> (r: u32)
    ensures
        r == spec_default_day(),
{
    10000
}

/// Default request limit per month.
#[verifier::when_used_as_spec(spec_default_month)]
pub fn default_month() -> (r: u32)
    ensures
        r == spec_default_month(),
{
    100000
}

/// A model served by a platform, with its own quota limits.
#[derive(Debug, Clone)]
pub struct Model {
    pub id: String,
    /// Platform the model belongs to.
    pub platform_id: String,
    /// Identifier used in API requests.
    pub model_name: String,
    /// Human-readable name.
    pub display_name: String,
    /// Maximum requests per 5-hour window (0 = unlimited).
    pub per_5hour: u32,
    /// Maximum requests per day (0 = unlimited).
    pub per_day: u32,
    /// Maximum requests per month (0 = unlimited).
    pub per_month: u32,
    pub sort_order: i32,
    pub created_at: i64,
    /// Context window size, when known.
    pub max_input_tokens: Option<u64>,
}

impl Model {
    /// A new model with a fresh id and the default limits.
    pub fn new(platform_id: String, model_name: String, display_name: String) -> (r: Self)
        ensures
            r.id@.len() == 36,
            r.platform_id == platform_id,
            r.model_name == model_name,
            r.display_name == display_name,
            r.per_5hour == spec_default_5hour(),
            r.per_day == spec_default_day(),
            r.per_month == spec_default_month(),
            r.sort_order == 0,
            r.max_input_tokens.is_none(),
    {
        Model {
            id: clock::new_uuid(),
            platform_id,
            model_name,
            display_name,
            per_5hour: default_5hour(),
            per_day: default_day(),
            per_month: default_month(),
            sort_order: 0,
            created_at: clock::now_unix_seconds(),
            max_input_tokens: None,
        }
    }
}

impl Ordered for Model {
    open spec fn order_of(&self) -> int {
        self.sort_order as int
    }

    open spec fn same(&self, other: &Self) -> bool {
        *self == *other
    }

    proof fn lemma_same(a: &Self, b: &Self) {
    }

    fn order(&self) -> (r: i32) {
        self.sort_order
    }

    fn duplicate(&self) -> (r: Self) {
        Model {
            id: self.id.clone(),
            platform_id: self.platform_id.clone(),
            model_name: self.model_name.clone(),
            display_name: self.display_name.clone(),
            per_5hour: self.per_5hour,
            per_day: self.per_day,
            per_month: self.per_month,
            sort_order: self.sort_order,
            created_at: self.created_at,
            max_input_tokens: self.max_input_tokens,
        }
    }
}

/// A base URL used instead of the platform's for targets under `path_prefix`.
#[derive(Debug, Clone)]
pub struct PathOverride {
    /// Path prefix to match (e.g. "/agnesapi").
    pub path_prefix: String,
    /// Base URL used for matching paths.
    pub base_url: String,
}

impl PathOverride {
    /// An exact copy.
    pub fn duplicate(&self) -> (r: Self)
        ensures
            r == *self,
    {
        PathOverride { path_prefix: self.path_prefix.clone(), base_url: self.base_url.clone() }
    }
}

/// Copies a list of path overrides.
pub fn copy_overrides(v: &Vec<PathOverride>) -> (r: Vec<PathOverride>)
    ensures
        r@ == v@,
{
    let mut out: Vec<PathOverride> = Vec::new();
    let mut i: usize = 0;
    while i < v.len()
        invariant
            i <= v.len(),
            out@ == v@.take(i as int),
        decreases v.len() - i,
    {
        out.push(v[i].duplicate());
        i += 1;
        assert(out@ =~= v@.take(i as int));
    }
    assert(v@.take(v.len() as int) =~= v@);
    out
}

/// A third-party API platform.
#[derive(Debug, Clone)]
pub struct Platform {
    pub id: String,
    /// Display name.
    pub name: String,
    /// Base URL without trailing slash.
    pub base_url: String,
    /// Path prefix that selects this platform in the proxy.
    pub path_prefix: String,
    pub notes: Option<String>,
    pub sort_order: i32,
    pub created_at: i64,
    /// Path-specific base URL overrides.
    pub base_url_overrides: Vec<PathOverride>,
    /// Model that requests for unknown models are rewritten to.
    pub default_model: Option<String>,
}

impl Platform {
    /// Whether two platforms hold the same data.
    pub open spec fn same_platform(&self, other: &Self) -> bool {
        &&& self.id == other.id
        &&& self.name == other.name
        &&& self.base_url == other.base_url
        &&& self.path_prefix == other.path_prefix
        &&& self.notes == other.notes
        &&& self.sort_order == other.sort_order
        &&& self.created_at == other.created_at
        &&& self.base_url_overrides@ == other.base_url_overrides@
        &&& self.default_model == other.default_model
    }

    /// A new platform created now.
    pub fn new(id: String, name: String, base_url: String, path_prefix: String) -> (r: Self)
        ensures
            r.id == id,
            r.name == name,
            r.base_url == base_url,
            r.path_prefix == path_prefix,
            r.notes.is_none(),
            r.sort_order == 0,
            r.base_url_overrides@.len() == 0,
            r.default_model.is_none(),
    {
        Platform {
            id,
            name,
            base_url,
            path_prefix,
            notes: None,
            sort_order: 0,
            created_at: clock::now_unix_seconds(),
            base_url_overrides: Vec::new(),
            default_model: None,
        }
    }
}

impl Ordered for Platform {
    open spec fn order_of(&self) -> int {
        self.sort_order as int
    }

    open spec fn same(&self, other: &Self) -> bool {
        self.same_platform(other)
    }

    proof fn lemma_same(a: &Self, b: &Self) {
    }

    fn order(&self) -> (r: i32) {
        self.sort_order
    }

    fn duplicate(&self) -> (r: Self) {
        Platform {
            id: self.id.clone(),
            name: self.name.clone(),
            base_url: self.base_url.clone(),
            path_prefix: self.path_prefix.clone(),
            notes: copy_opt_string(&self.notes),
            sort_order: self.sort_order,
            created_at: self.created_at,
            base_url_overrides: copy_overrides(&self.base_url_overrides),
            default_model: copy_opt_string(&self.default_model),
        }
    }
}

/// A saved platform + model combination.
#[derive(Debug, Clone)]
pub struct ProviderProfile {
    pub id: String,
    pub name: String,
    pub platform_id: String,
    pub model_id: String,
    pub notes: Option<String>,
    pub created_at: i64,
    pub updated_at: i64,
}

impl ProviderProfile {
    /// An exact copy.
    pub fn duplicate(&self) -> (r: Self)
        ensures
            r == *self,
    {
        ProviderProfile {
            id: self.id.clone(),
            name: self.name.clone(),
            platform_id: self.platform_id.clone(),
            model_id: self.model_id.clone(),
            notes: copy_opt_string(&self.notes),
            created_at: self.created_at,
            updated_at: self.updated_at,
        }
    }
}

/// A saved Codex provider profile.
#[derive(Debug, Clone)]
pub struct CodexProfile {
    pub id: String,
    pub name: String,
    pub platform_id: String,
    pub model_name: String,
    pub proxy_host: String,
    pub proxy_port: u16,
    pub path_prefix: String,
    pub reasoning_effort: Option<String>,
    pub disable_response_storage: Option<bool>,
    pub api_key: Option<String>,
    pub created_at: i64,
    pub updated_at: i64,
}

impl CodexProfile {
    /// An exact copy.
    pub fn duplicate(&self) -> (r: Self)
        ensures
            r == *self,
    {
        CodexProfile {
            id: self.id.clone(),
            name: self.name.clone(),
            platform_id: self.platform_id.clone(),
            model_name: self.model_name.clone(),
            proxy_host: self.proxy_host.clone(),
            proxy_port: self.proxy_port,
            path_prefix: self.path_prefix.clone(),
            reasoning_effort: copy_opt_string(&self.reasoning_effort),
            disable_response_storage: self.disable_response_storage,
            api_key: copy_opt_string(&self.api_key),
            created_at: self.created_at,
            updated_at: self.updated_at,
        }
    }
}

/// Default local proxy port.
pub fn default_proxy_port() -> (r: u16)
    ensures
        r == 8045,
{
    8045
}

/// Default local proxy bind address.
pub fn default_proxy_host() -> (r: String)
    ensures
        r@ == "127.0.0.1"@,
{
    owned("127.0.0.1")
}

/// Default for switches that are on unless configured otherwise.
pub fn default_true() -> (r: bool)
    ensures
        r,
{
    true
}

/// Application configuration.
#[derive(Debug, Clone)]
pub struct AppConfig {
    pub language: String,
    pub theme: String,
    /// Local proxy port.
    pub proxy_port: u16,
    /// Local proxy bind address.
    pub proxy_host: String,
    /// Rotate keys on 429/5xx.
    pub auto_switch: bool,
    /// Configured platforms.
    pub platforms: Vec<Platform>,
    /// Saved Codex provider profiles.
    pub codex_profiles: Vec<CodexProfile>,
    /// Saved platform + model profiles.
    pub provider_profiles: Vec<ProviderProfile>,
}

impl AppConfig {
    /// The default configuration.
    pub fn new() -> (r: Self)
        ensures
            r.language@ == "zh"@,
            r.theme@ == "system"@,
            r.proxy_port == 8045,
            r.proxy_host@ == "127.0.0.1"@,
            r.auto_switch,
            r.platforms@.len() == 0,
            r.codex_profiles@.len() == 0,
            r.provider_profiles@.len() == 0,
    {
        AppConfig {
            language: owned("zh"),
            theme: owned("system"),
            proxy_port: default_proxy_port(),
            proxy_host: default_proxy_host(),
            auto_switch: default_true(),
            platforms: Vec::new(),
            codex_profiles: Vec::new(),
            provider_profiles: Vec::new(),
        }
    }
}

impl Default for AppConfig {
    fn default() -> (r: Self)
        ensures
            r.language@ == "zh"@,
            r.theme@ == "system"@,
            r.proxy_port == 8045,
            r.proxy_host@ == "127.0.0.1"@,
            r.auto_switch,
            r.platforms@.len() == 0,
            r.codex_profiles@.len() == 0,
            r.provider_profiles@.len() == 0,
    {
        Self::new()
    }
}

} // verus!
