[package]
name = "receipt_merkle"
version = "0.1.0"
edition = "2021"
publish = false

[dependencies]
sha3 = "*"
anyhow = "*"
clap = { version = "*", features = ["derive"] }
dotenv = "*"
ethers = { version = "*", default-features = false }
tokio = { version = "*", features = ["rt-multi-thread", "macros"] }
tracing = "*"
tracing-subscriber = "*"
