[package]
name = "acvm_server"
version = "0.1.0"
edition = "2021"
publish = false

[dependencies]
acir = "=0.46.0"
acvm = "=0.46.0"
jsonrpsee = { version = "=0.26.1", features = ["server"], default-features = false }
tokio = { version = "=1.53.2", features = ["rt-multi-thread", "macros"], default-features = false }
toml = "=0.8.23"
