[package]
name = "duchess"
version = "0.1.0"
edition = "2021"
publish = false

[dependencies]
rand = "0.8"
clap = "3"
tokio = { version = "1", features = ["full"] }
vampirc-uci = "*"
