[package]
name = "llm_quota"
version = "0.1.0"
edition = "2021"
publish = false

[dependencies]
anyhow = "=1.0.104"
chrono = "=0.4.45"
jsonwebtoken = { version = "=11.1.0", features = ["rust_crypto"] }
parking_lot = "=0.12.5"
thiserror = "=2.0.21"
uuid = { version = "=1.27.0", features = ["v4"] }
