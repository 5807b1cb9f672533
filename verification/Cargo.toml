[package]
name = "rate_limiter"
version = "0.1.0"
edition = "2021"
publish = false

[dependencies]
chrono = "*"
leaky-bucket = "*"
axum = "*"
tokio = { version = "*", features = ["full"] }
futures = "*"
lazy_static = "*"
redis = "*"
