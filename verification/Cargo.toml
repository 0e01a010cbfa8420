[package]
name = "spotify_bootstrap"
version = "0.1.0"
edition = "2021"
publish = false

[dependencies]
csv = "1"
sqlx = { version = "0.8", default-features = false, features = ["sqlite", "runtime-tokio"] }
tokio = { version = "1", features = ["rt"] }
