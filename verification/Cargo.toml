[package]
name = "vyotiq_backend"
version = "0.1.0"
edition = "2021"
publish = false

[dependencies]
anyhow = "1"
axum = { version = "=0.8.9", features = ["ws"] }
candle-core = "=0.11.0"
chrono = { version = "=0.4.45", default-features = false, features = ["now", "serde", "std"] }
dashmap = "=6.2.1"
dirs = "5"
dunce = "1"
fastembed = { version = "=7.5.0", default-features = false, features = ["qwen3-text", "hf-hub"] }
futures-util = "0.3"
ignore = "=0.4.33"
notify = "=6.1.1"
notify-debouncer-full = "=0.3.2"
parking_lot = "0.12"
rayon = "1"
regex = "=1.13.1"
serde = { version = "1", features = ["derive"] }
serde_json = "1"
sha2 = "=0.10.9"
tantivy = "=0.22.1"
thiserror = "1"
tokio = { version = "=1.54.1", features = ["full"] }
tower-http = { version = "=0.6.11", features = ["cors", "compression-gzip", "trace"] }
tracing = "0.1"
tracing-appender = "0.2"
tracing-subscriber = { version = "0.3", features = ["env-filter"] }
usearch = "=2.26.6"
uuid = { version = "=1.29.0", features = ["v4"] }
