[package]
name = "iec61850"
version = "0.1.0"
edition = "2021"
publish = false

[dependencies]
libc = "0.2"
ratatui = "0.29"
thiserror = "2"
tokio = { version = "1", features = ["rt-multi-thread", "sync", "time", "net", "io-util", "macros", "signal"] }
tokio-rustls = { version = "0.26", default-features = false }
