[package]
name = "aetherlink"
version = "0.1.0"
edition = "2021"
publish = false

[dependencies]
anyhow = "1"
dialoguer = "0.11"
notify-rust = "4"
petgraph = "0.6"
serde = { version = "1", features = ["derive"] }
serde_json = "1"
streaming-iterator = "0.1"
tokio = { version = "1", features = ["rt-multi-thread", "macros", "io-std", "io-util"] }
toml = "0.8"
tracing = "0.1"
tracing-subscriber = { version = "0.3", features = ["env-filter"] }
tree-sitter = "0.24"
tree-sitter-javascript = "0.23"
tree-sitter-python = "0.23"
tree-sitter-rust = "0.23"
tree-sitter-typescript = "0.23"
walkdir = "2"
