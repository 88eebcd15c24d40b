[package]
name = "lxmf_core"
version = "0.1.0"
edition = "2021"
publish = false

[dependencies]
thiserror = "2"
tokio = { version = "1", features = ["sync", "rt", "time", "macros"] }
tracing = "0.1"
