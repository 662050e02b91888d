[package]
name = "endless_stream"
version = "0.1.0"
edition = "2021"
publish = false

[dependencies]
byte-unit = "4"
once_cell = "1"
tokio = { version = "1", features = ["io-util", "macros", "net", "rt-multi-thread", "sync", "time"] }
