[package]
name = "underclass"
version = "0.1.0"
edition = "2021"
publish = false

[dependencies]
axum = "0.8"
base64 = "0.22"
clap = { version = "4", features = ["derive"] }
futures = "0.3"
json_comments = "0.2"
reqwest = { version = "0.12", default-features = false, features = ["json", "blocking"] }
serde = { version = "1", features = ["derive"] }
serde_json = "1"
thiserror = "2"
tokio = { version = "1", features = ["rt-multi-thread", "macros", "net", "time", "sync"] }
tower-http = { version = "0.6", features = ["request-id"] }
tracing = "0.1"
uuid = { version = "1", features = ["v4"] }
