[package]
name = "frost_relayer"
version = "0.1.0"
edition = "2021"
publish = false

[dependencies]
uuid = { version = "=1.27.0", features = ["v4"] }
tokio = { version = "=1.53.2", features = ["rt-multi-thread", "sync", "time", "macros"] }
tracing = "=0.1.44"
anyhow = "=1.0.104"
thiserror = "=1.0.69"
