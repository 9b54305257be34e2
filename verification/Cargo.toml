[package]
name = "sendword"
version = "0.1.0"
edition = "2021"
publish = false

[dependencies]
regex = "=1.13.1"
regex-syntax = "=0.8.11"
humantime = "=2.4.0"
chrono = "=0.4.45"
serde = { version = "=1.0.229", features = ["derive"] }
serde_json = "=1.0.154"
eyre = "=0.6.14"
argon2 = "=0.5.3"
rand_core = { version = "=0.6.4", features = ["getrandom"] }
rand = "=0.9.5"
base64 = "=0.22.1"
toml_edit = { version = "=0.22.27", features = ["serde"] }
uuid = { version = "=1.29.0", features = ["v7"] }
urlencoding = "=2.1.3"
thiserror = "=2.0.21"
tracing = "=0.1.44"
tracing-subscriber = { version = "=0.3.23", features = ["env-filter"] }
tokio = { version = "=1.54.1", features = ["full"] }
axum = "=0.8.9"
arc-swap = "=1.9.3"
futures-core = "=0.3.34"
async-stream = "=0.3.6"
clap = { version = "=4.6.7", features = ["derive"] }
tempfile = "=3.27.0"
cron = "=0.15.0"
tar = "=0.4.46"
flate2 = "=1.1.10"
sqlx = { version = "=0.8.6", default-features = false, features = ["sqlite", "runtime-tokio", "macros"] }
reqwest = { version = "=0.12.28", default-features = false, features = ["json", "rustls-tls"] }
rust-s3 = { version = "=0.35.1", default-features = false, features = ["tokio-rustls-tls"] }
