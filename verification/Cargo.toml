[package]
name = "tsmetrics"
version = "0.1.0"
edition = "2021"
publish = false

[dependencies]
tree-sitter = "0.24"
tree-sitter-typescript = "0.23"
anyhow = "1"
clap = { version = "4", features = ["derive"] }
comfy-table = "7"
rayon = "1"
serde = { version = "1", features = ["derive"] }
serde_json = "1"
serde_yaml = "0.9"
walkdir = "2"
