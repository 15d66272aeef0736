[package]
name = "falcon_protocol"
version = "0.1.0"
edition = "2021"
publish = false

[dependencies]
tokio = { version = "1", features = ["rt-multi-thread", "net", "macros", "sync"] }
libloading = "0.8"
crossbeam = "0.8"
once_cell = "1"
