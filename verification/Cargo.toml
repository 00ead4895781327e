[package]
name = "constellation_observer"
version = "0.1.0"
edition = "2021"
publish = false

[dependencies]
terra-rust-api = "*"
rust_decimal = "*"
serde = { version = "*", features = ["derive"] }
serde_json = "*"
base64 = "*"
chrono = "*"
log = "*"
anyhow = "*"
futures = "*"
tokio = { version = "*", features = ["rt-multi-thread", "macros", "time", "net"] }
tokio-tungstenite = "*"
