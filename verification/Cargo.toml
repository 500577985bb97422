[package]
name = "plentra"
version = "0.1.0"
edition = "2021"
publish = false

[dependencies]
anyhow = "1"
augurs = { version = "*", features = ["changepoint", "dtw", "ets", "mstl"] }
axum = { version = "0.7", default-features = false, features = ["tokio", "http1", "json", "query"] }
chrono = { version = "0.4", features = ["serde"] }
chrono-tz = "0.10"
csv = "1"
dashmap = "6"
dotenvy = "0.15"
quick-xml = "0.36"
reqwest = { version = "0.12", default-features = false, features = ["json", "rustls-tls"] }
serde = { version = "1", features = ["derive"] }
serde_json = "1"
sqlx = { version = "0.8", default-features = false, features = ["runtime-tokio", "postgres", "chrono", "json", "macros", "migrate"] }
time = { version = "0.3", features = ["macros"] }
tokio = { version = "1", default-features = false, features = ["rt-multi-thread", "macros", "time", "net"] }
tower-http = { version = "0.6", features = ["cors", "trace"] }
tracing = "0.1"
tracing-subscriber = { version = "0.3", default-features = false, features = ["env-filter", "fmt", "ansi"] }
urlencoding = "2"
