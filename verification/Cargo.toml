[package]
name = "webview"
version = "0.1.0"
edition = "2021"
publish = false

[dependencies]
actson = "*"
parking_lot = "*"
schemars = "*"
serde = { version = "1", features = ["derive"] }
serde_json = "1"
tao = "*"
tracing = "*"
tracing-subscriber = { version = "*", features = ["env-filter"] }
wry = "*"
