[package]
name = "system-monitor-web"
version = "0.1.0"
edition = "2021"
publish = false

[dependencies]
regex = "1"
serde = { version = "1", features = ["derive"] }
axum = "0.8"
tower-http = { version = "0.6", features = ["cors"] }
