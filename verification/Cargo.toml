[package]
name = "acorn"
version = "0.1.0"
edition = "2021"
publish = false

[dependencies]
clap = { version = "=4.6.7", features = ["derive"] }
dashmap = "=6.2.1"
tokio = { version = "=1.54.1", features = ["io-std", "io-util", "macros", "rt-multi-thread"] }
tower-lsp = "=0.20.0"
