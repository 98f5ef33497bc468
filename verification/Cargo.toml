[package]
name = "relay_hub"
version = "0.1.0"
edition = "2021"
publish = false

[dependencies]
axum = { version = "*", features = ["ws"] }
tokio = { version = "*", features = ["full"] }
bytes = "*"
futures-util = "*"
serde = { version = "*", features = ["derive"] }
serde_json = "*"
tower-http = { version = "*", features = ["fs"] }
tracing = "*"
tracing-subscriber = { version = "*", features = ["env-filter"] }
ewebsock = "*"
