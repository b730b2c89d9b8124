[package]
name = "zenoh_mcp"
version = "0.1.0"
edition = "2021"
publish = false

[dependencies]
serde = { version = "1", features = ["derive"] }
serde_json = "1"
cdr = "0.2"
anyhow = "1"
tokio = { version = "1", features = ["macros", "rt-multi-thread", "time", "io-std"] }
tracing = "0.1"
tracing-subscriber = { version = "0.3", features = ["env-filter"] }
rmcp = { version = "1.7", features = ["server", "transport-io", "macros"] }
zenoh = "=1.8.0"
