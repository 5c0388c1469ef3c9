[package]
name = "bitdemon_services"
version = "0.1.0"
edition = "2021"
publish = false

[dependencies]
axum = "0.8"
chrono = "0.4"
serde = { version = "1", features = ["derive"] }
serde_json = "1"
tiger = "0.2"
tokio = { version = "1", features = ["fs", "macros", "net", "rt-multi-thread"] }
