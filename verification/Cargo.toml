[package]
name = "doc2text"
version = "0.1.0"
edition = "2021"
publish = false

[dependencies]
cfb = "*"
encoding_rs = "0.8"
anyhow = "1"
clap = { version = "4", features = ["derive"] }
