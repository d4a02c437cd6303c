[package]
name = "qutemarks"
version = "0.1.0"
edition = "2021"
publish = false

[dependencies]
url = "2"
csv = "1"
regex = "1"
anyhow = "1"
serde = { version = "1", features = ["derive"] }
serde_json = "1"
askama = "0.14"
axum = { version = "0.8", features = ["multipart"] }
sqlx = { version = "0.8", default-features = false, features = ["runtime-tokio", "sqlite", "derive"] }
tokio = { version = "1", features = ["macros", "rt-multi-thread", "net"] }
tracing = "0.1"
tracing-subscriber = "0.3"
