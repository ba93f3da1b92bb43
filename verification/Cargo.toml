[package]
name = "uip"
version = "0.1.0"
edition = "2021"
publish = false

[dependencies]
chrono = "=0.4.45"
ipnetwork = "=0.21.1"
serde_json = "=1.0.154"
csv = "=1.4.0"
serde = { version = "=1.0.229", features = ["derive"] }
arc-swap = "=1.9.3"
anyhow = "=1.0.104"
tokio = { version = "=1.54.1", features = ["rt-multi-thread", "macros", "net", "sync", "time", "signal"] }
sqlx = { version = "=0.8.6", default-features = false, features = ["runtime-tokio", "postgres", "chrono", "ipnetwork", "macros", "json"] }
axum = "=0.8.9"
tracing = "=0.1.44"
tracing-subscriber = { version = "=0.3.23", features = ["env-filter"] }
reqwest = { version = "=0.12.28", default-features = false, features = ["json", "rustls-tls"] }
hickory-resolver = "=0.25.2"
maxminddb = "=0.32.0"
flate2 = "=1.1.10"
tar = "=0.4.46"
futures = "=0.3.34"
tokio-stream = { version = "=0.1.19", features = ["sync"] }
