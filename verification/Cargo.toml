[package]
name = "pscheckwait"
version = "0.1.0"
edition = "2021"
publish = false

[dependencies]
dashmap = "6"
tokio = { version = "1", features = ["full"] }
axum = { version = "0.7", features = ["ws"] }
async-trait = "0.1"
redis = { version = "0.27", features = ["tokio-comp", "connection-manager"] }
serde = { version = "1", features = ["derive"] }
serde_json = "1"
tower-http = { version = "0.5", features = ["cors"] }
tracing = "0.1"
tracing-subscriber = { version = "0.3", features = ["env-filter"] }
uuid = { version = "1", features = ["v4"] }
mime_guess = "2"
rust-embed = "8"
