[package]
name = "scanengine"
version = "0.1.0"
edition = "2021"
publish = false

[dependencies]
anyhow = "1"
async-graphql = "7"
async-graphql-axum = "7"
async-trait = "0.1"
axum = "*"
chrono = "0.4"
clap = { version = "4", features = ["derive", "env"] }
dashmap = "6"
dotenvy = "0.15"
futures = "0.3"
hdrhistogram = { version = "7", default-features = false }
metrics = "*"
metrics-exporter-prometheus = { version = "*", default-features = false }
parking_lot = "0.12"
serde = { version = "1", features = ["derive"] }
thiserror = "*"
tokio = { version = "1", features = ["sync", "time", "rt-multi-thread", "macros", "signal", "net"] }
tokio-stream = { version = "0.1", features = ["sync"] }
tracing = "0.1"
tracing-subscriber = { version = "0.3", features = ["env-filter", "json"] }
uuid = { version = "1", features = ["v4"] }

[dev-dependencies]
serde_json = "1"
