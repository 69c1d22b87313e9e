[package]
name = "command_stream"
version = "0.1.0"
edition = "2021"
publish = false

[dependencies]
tokio = { version = "*", features = ["full"] }
chrono = "*"
filetime = "*"
which = "*"
async-trait = "*"
