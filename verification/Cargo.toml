[package]
name = "taskflow"
version = "0.1.0"
edition = "2021"
publish = false

[dependencies]
chrono = { version = "=0.4.45", features = ["serde"] }
serde = { version = "=1.0.229", features = ["derive"] }
serde_json = "=1.0.154"
axum = "=0.8.9"
tokio = { version = "=1.54.1", features = ["full"] }
tower-http = { version = "=0.6.11", features = ["cors"] }
reqwest = { version = "=0.12.28", default-features = false, features = ["json"] }
dioxus = { version = "=0.6.3", default-features = false, features = ["macro", "html", "signals", "hooks", "launch", "document", "asset", "router"] }
wasm-bindgen = "=0.2.129"
