[package]
name = "rsh"
version = "0.1.0"
edition = "2021"
publish = false

[dependencies]
rustyline = { version = "10", default-features = false }
ctrlc = "3"
