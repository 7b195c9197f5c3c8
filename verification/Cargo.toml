[package]
name = "memestore"
version = "0.1.0"
edition = "2021"
publish = false

[dependencies]
sha2 = "*"
chrono = "*"
axum = { version = "*", features = ["multipart"] }
tokio = { version = "*", features = ["rt-multi-thread", "macros", "net"] }
object_store = { version = "*", features = ["aws"] }
tower-http = { version = "*", features = ["fs", "limit"] }
futures = "*"
minijinja = "*"
dotenvy = "*"
