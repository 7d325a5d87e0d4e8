[package]
name = "kintoun"
version = "0.1.0"
edition = "2021"
publish = false

[dependencies]
anyhow = "1"
bytes = "1"
futures = "0.3"
thiserror = "2"
tokio = { version = "1", features = ["rt-multi-thread", "net", "macros", "signal", "io-util", "io-std", "sync"] }
tokio-util = { version = "0.7", features = ["codec"] }
