[package]
name = "zaino_core"
version = "0.1.0"
edition = "2021"
publish = false

[dependencies]
serde_json = "1"
http = "1"
tempfile = "3"
portpicker = "0.1"
tokio = { version = "1", features = ["rt-multi-thread", "macros", "time"] }
