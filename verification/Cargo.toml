[package]
name = "devhub"
version = "0.1.0"
edition = "2021"
publish = false

[dependencies]
serde = { version = "1", features = ["derive"] }
serde_json = "1"
vte = "*"
rmcp = { version = "*", features = ["server", "macros", "transport-streamable-http-server"] }
axum = "*"
tokio = { version = "1", features = ["rt-multi-thread", "net", "macros", "io-std"] }
tokio-util = "*"
