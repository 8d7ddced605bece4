[package]
name = "mcp_core"
version = "0.1.0"
edition = "2021"
publish = false

[dependencies]
tokio = { version = "1", features = ["rt-multi-thread", "macros", "process", "io-util", "sync", "time", "fs"] }
futures = "0.3"
reqwest = { version = "0.12", default-features = false, features = ["stream"] }
eventsource-stream = "0.2"
