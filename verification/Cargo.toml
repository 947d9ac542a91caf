[package]
name = "monkey"
version = "0.1.0"
edition = "2021"
publish = false

[dependencies]
anyhow = "1"
stacker = "0.1"
whoami = "1"
clap = { version = "4", features = ["derive"] }
