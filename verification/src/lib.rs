//! Multi-platform API key rotation proxy: the verified core.
//!
//! The crate holds the data model (platforms, models, keys, profiles), the
//! sliding-window quota tracker that decides which key may serve a request,
//! the in-memory stores behind the management commands, and the text / JSON
//! logic of the proxy (request-body defence, URL joining, output sanitising,
//! stream-termination diagnostics, protocol helpers).

pub mod text;
pub mod clock;
pub mod sorting;
pub mod models;
pub mod quota_window;
pub mod keystore;
pub mod model_manager;
pub mod key_model_map;
pub mod platform_manager;
pub mod profile_manager;
pub mod proxy;
pub mod config;
pub mod token_stats;
pub mod i18n;
pub mod json;
pub mod diagnostics;
pub mod codex_translator;
pub mod responses_bridge;
pub mod responses_relay;
pub mod codex_integration;
pub mod codex_toml;
pub mod codex_desktop;
pub mod log_bridge;
pub mod upstream_models;
pub mod bridge_request;
pub mod codex_bodies;
pub mod codex_request;
pub mod bridge_response;
pub mod commands;
pub mod bridge_stream;
pub mod codex_stream;
pub mod laws;
pub mod stream_laws;
pub mod request_laws;
