[package]
name = "httpdispatcher"
version = "0.1.0"
edition = "2021"
publish = false

[dependencies]
anyhow = "1"
async-trait = "0.1"
axum = "0.7"
clap = { version = "4", features = ["derive"] }
dashmap = "6"
nanoid = "0.4"
notify = { version = "6", default-features = false }
notify-debouncer-full = { version = "0.3", default-features = false }
regex = "1"
reqwest = { version = "0.12", default-features = false, features = ["rustls-tls"] }
serde = { version = "1", features = ["derive"] }
serde_json = "1"
serde_yaml = "0.9"
tera = { version = "1", default-features = false }
thiserror = "1"
tokio = { version = "1", features = ["rt-multi-thread", "macros", "sync", "net", "time", "signal"] }
toml = "0.8"
tower = "0.4"
tower-http = { version = "0.5", features = ["limit", "trace"] }
tracing = "0.1"
tracing-subscriber = { version = "0.3", features = ["env-filter", "json"] }
