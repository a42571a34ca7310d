[package]
name = "clockrust"
version = "0.1.0"
edition = "2021"
publish = false

[dependencies]
chrono = "0.4"
comfy-table = "*"
rusqlite = { version = "*", features = ["bundled"] }
color-eyre = "0.6"
tracing = "0.1"
tracing-subscriber = "0.3"
