[package]
name = "monkey_rs"
version = "0.1.0"
edition = "2021"
publish = false

[dependencies]
rustyline = { version = "*", default-features = false }
