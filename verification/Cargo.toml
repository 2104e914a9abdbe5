[package]
name = "openlogi-hid"
version = "0.1.0"
edition = "2021"
publish = false

[dependencies]
async-hid = "0.4"
futures-lite = "2"
hidpp = "*"
tokio = { version = "1", features = ["sync"] }
tracing = "0.1"
