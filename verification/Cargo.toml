[package]
name = "external_tests"
version = "0.1.0"
edition = "2021"
publish = false

[dependencies]
colored = "2"
json = "0.12"
log = "0.4"
proc-macro2 = "1.0"
quote = "1.0"
syn = { version = "2", features = ["full"] }
tokio = { version = "1", features = ["io-util", "net", "process", "rt", "sync", "time"] }
