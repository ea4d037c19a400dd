[package]
name = "ledger_core"
version = "0.1.0"
edition = "2021"
publish = false

[dependencies]
fastcrypto = "*"
blake2 = "*"
base64 = "*"
tokio = { version = "*", features = ["rt-multi-thread", "sync", "time", "macros"] }
tracing = "*"

[dev-dependencies]
bcs = "*"
