[package]
name = "codex_plus_core"
version = "0.1.0"
edition = "2021"
publish = false

[dependencies]
serde = { version = "=1.0.229", features = ["derive"] }
serde_json = "=1.0.154"
base64 = "=0.22.1"
uuid = { version = "=1.29.0", features = ["v4"] }
directories = "=6.0.0"
sha2 = "=0.10.9"
anyhow = "=1.0.104"
thiserror = "=2.0.21"
url = "2"
