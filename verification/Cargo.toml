[package]
name = "smista_router"
version = "0.1.0"
edition = "2021"
publish = false

[dependencies]
rapidfuzz = "*"
globset = "*"
rust_decimal = "*"
axum = "*"
secrecy = "*"
serde = { version = "*", features = ["derive"] }
serde_json = "*"
