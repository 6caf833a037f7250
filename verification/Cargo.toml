[package]
name = "lucky_chess"
version = "0.1.0"
edition = "2021"
publish = false

[dependencies]
uci-parser = { version = "=1.1.0", features = ["parse-go-perft"] }
