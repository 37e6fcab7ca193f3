[package]
name = "treegen"
version = "0.1.0"
edition = "2021"
publish = false

[dependencies]
anyhow = "*"
clap = { version = "*", features = ["derive"] }
futures = "*"
tokio = { version = "*", features = ["rt-multi-thread", "macros"] }
tokio-stream = "*"
