[package]
name = "nexus"
version = "0.1.0"
edition = "2021"
publish = false

[dependencies]
uuid = { version = "1", features = ["v4", "serde"] }
serde = { version = "1", features = ["derive"] }
serde_json = "1"
axum = { version = "0.8", features = ["ws"] }
tokio = { version = "1", features = ["full"] }
async-nats = "0.42"
redis = { version = "0.32", features = ["tokio-comp", "aio"] }
sqlx = { version = "0.8", default-features = false, features = ["runtime-tokio", "postgres", "uuid", "macros"] }
jsonwebtoken = "9"
bytes = "1"
futures-util = "0.3"
dotenvy = "0.15"
thiserror = "2"
tower-http = { version = "0.6", features = ["cors", "trace"] }
tracing = "0.1"
tracing-subscriber = { version = "0.3", features = ["env-filter"] }
rhai = { version = "1", features = ["serde"] }
