[package]
name = "logview"
version = "0.1.0"
edition = "2021"
publish = false

[dependencies]
arraydeque = "=0.5.1"
regex = "=1.13.1"
atty = "=0.2.14"
clap = { version = "=4.6.7", features = ["derive"] }
cursive = { version = "=0.20.0", default-features = false, features = ["crossterm-backend", "toml"] }
