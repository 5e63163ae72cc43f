[package]
name = "integrations_api"
version = "0.1.0"
edition = "2021"
publish = false

[dependencies]
uuid = { version = "1", features = ["v7"] }
chrono = { version = "0.4" }
serde = { version = "1", features = ["derive"] }
serde_json = { version = "1" }
axum = { version = "*" }
tokio = { version = "*", features = ["rt-multi-thread", "macros", "net", "sync"] }
