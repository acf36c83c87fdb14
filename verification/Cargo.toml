[package]
name = "dex_pool_cache"
version = "0.1.0"
edition = "2021"
publish = false

[dependencies]
tokio = { version = "*", features = ["rt-multi-thread", "sync"] }
futures = "*"
num-bigint = "*"
num-traits = "*"
