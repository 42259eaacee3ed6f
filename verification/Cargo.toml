[package]
name = "repository-ledger"
version = "0.1.0"
edition = "2021"
publish = false

[dependencies]
kameo = "=0.20.0"
rkyv = "=0.8.18"
thiserror = "=2.0.21"
tokio = { version = "=1.54.1", features = ["io-util", "macros", "net", "rt-multi-thread", "sync", "time"] }
