[package]
name = "libmudtelnet"
version = "0.1.0"
edition = "2021"
publish = false

[dependencies]
bytes = "*"
libtelnet-rs = "*"
tokio-util = { version = "*", features = ["codec"] }
