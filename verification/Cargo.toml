[package]
name = "antigravity_hub"
version = "0.1.0"
edition = "2021"
publish = false

[dependencies]
serde = { version = "1", features = ["derive"] }
serde_json = "1"
uuid = { version = "1", features = ["v4"] }
chrono = "0.4"
rand = "0.8"
tokio = { version = "1", features = ["full"] }
axum = "0.7"
reqwest = { version = "0.12", default-features = false, features = ["json", "stream", "rustls-tls"] }
futures = "0.3"
bytes = "1"
url = "2"
toml = "0.8"
clap = { version = "4", features = ["derive"] }
dirs = "5"
thiserror = "1"
