[package]
name = "orbital_core"
version = "0.1.0"
edition = "2021"
publish = false

[dependencies]
sgp4 = "*"
chrono = "*"
serde = { version = "*", features = ["derive"] }
serde_json = "*"
axum = "*"
tokio = { version = "*", features = ["full"] }
prometheus = "*"
lazy_static = "*"
tracing = "*"
tracing-subscriber = { version = "*", features = ["env-filter", "json"] }
dotenvy = "*"
