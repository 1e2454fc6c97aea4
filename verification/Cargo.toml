[package]
name = "dice_notation"
version = "0.1.0"
edition = "2021"
publish = false

[dependencies]
askama = "=0.16.1"
axum = "=0.8.9"
edgedb-tokio = "=0.5.1"
rand = "=0.10.3"
serde = { version = "=1.0.229", features = ["derive"] }
shuttle-axum = "=0.57.0"
shuttle-runtime = "=0.57.0"
tracing = "=0.1.44"
tracing-subscriber = { version = "=0.3.23", features = ["env-filter"] }
