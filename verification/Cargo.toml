[package]
name = "tinyavr"
version = "0.1.0"
edition = "2021"
publish = false

[dependencies]
ihex = "*"
clap = { version = "*", features = ["derive"] }
