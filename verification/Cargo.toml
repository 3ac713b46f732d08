[package]
name = "nichy"
version = "0.1.0"
edition = "2021"
publish = false

[dependencies]
axum = "0.8"
libc = "0.2"
proc-macro2 = "1"
rusqlite = { version = "*", features = ["bundled"] }
serde = { version = "1", features = ["derive"] }
serde_json = "1"
sha2 = "0.10"
tokio = { version = "1", features = ["full"] }
toml = "*"
tower-http = { version = "*", features = ["cors", "limit"] }
