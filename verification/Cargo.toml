[package]
name = "sammy_monitor"
version = "0.1.0"
edition = "2021"
publish = false

[dependencies]
urlencoding = "=2.1.3"
uuid = { version = "=1.27.0", features = ["v4", "serde"] }
serde = { version = "=1.0.229", features = ["derive"] }
serde_json = "*"
toml = "=1.1.7"
tokio = { version = "=1.53.2", features = ["macros", "rt-multi-thread", "time", "net"] }
reqwest = { version = "=0.13.5", default-features = false, features = ["json"] }
chrono = "=0.4.45"
axum = "=0.8.9"
clap = "=4.6.7"
metrics = "=0.24.6"
metrics-exporter-prometheus = { version = "=0.18.3", default-features = false }
anyhow = "*"
log = "*"
tracing = "*"
tracing-subscriber = { version = "=0.3.23", features = ["env-filter"] }
