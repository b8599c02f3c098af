[package]
name = "smol"
version = "0.1.0"
edition = "2021"
publish = false

[dependencies]
exitcode = "*"
websocket = { version = "*", default-features = false, features = ["sync"] }
