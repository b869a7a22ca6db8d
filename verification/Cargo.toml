[package]
name = "fpvjp_app"
version = "0.1.0"
edition = "2021"
publish = false

[dependencies]
serde_json = "1"
nanoid = "0.4"
percent-encoding = "2"
serde = { version = "1", features = ["derive"] }
axum = { version = "0.8", features = ["ws"] }
axum-server = { version = "0.7", features = ["tls-rustls"] }
tokio = { version = "1", features = ["full"] }
tower-http = { version = "0.6", features = ["cors"] }
tracing = "0.1"
tracing-log = "0.2"
tracing-subscriber = { version = "0.3", features = ["env-filter"] }
clap = { version = "4", features = ["derive"] }
anyhow = "1"
