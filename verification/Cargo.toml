[package]
name = "harald"
version = "0.1.0"
edition = "2021"
publish = false

[dependencies]
serde_json = "1"
walkdir = "2"
clap = { version = "4", features = ["derive"] }
colored = "*"
anyhow = "1"
tokio = { version = "1", features = ["rt-multi-thread", "macros", "sync"] }
reqwest = { version = "*", default-features = false, features = ["json"] }
hnsw_rs = "*"
