[package]
name = "cosmeredle"
version = "0.1.0"
edition = "2021"
publish = false

[dependencies]
axum = "=0.8.9"
axum-login = "=0.18.0"
bcrypt = "=0.19.3"
chrono = "=0.4.45"
derive-debug = "=0.1.2"
futures = "=0.3.34"
itertools = "=0.14.0"
log = "=0.4.35"
mediawiki = "=0.5.3"
rand = "=0.10.3"
regex = "=1.13.1"
serde = { version = "=1.0.229", features = ["derive"] }
serde_json = "=1.0.154"
sha3 = "=0.10.9"
sqlx = { version = "=0.8.6", default-features = false, features = ["sqlite", "runtime-tokio", "json"] }
time = "=0.3.55"
titlecase = "=3.6.0"
tokio = { version = "=1.54.1", features = ["rt-multi-thread", "macros", "net", "sync", "time"] }
tokio-cron-scheduler = "=0.15.1"
tower-http = { version = "=0.6.11", features = ["compression-gzip", "limit", "fs", "trace"] }
tower-sessions = { version = "=0.14.0", features = ["signed"] }
tower-sessions-sqlx-store = { version = "=0.15.0", features = ["sqlite"] }
tracing-subscriber = "=0.3.23"
uuid = "=1.29.0"
