[package]
name = "focus_send"
version = "0.1.0"
edition = "2021"
publish = false

[dependencies]
clap = { version = "4", features = ["derive", "env"] }
serialport = { version = "4", default-features = false }
