[package]
name = "quantik-api"
version = "0.1.0"
edition = "2021"
publish = false

[dependencies]
axum = "0.8"
quantik-core = "=1.3.0"
serde = { version = "1", features = ["derive"] }
tokio = { version = "1", features = ["rt-multi-thread", "macros", "net"] }
tower-http = { version = "0.6", features = ["cors", "trace"] }
