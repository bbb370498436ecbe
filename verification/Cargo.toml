[package]
name = "omnideps"
version = "0.1.0"
edition = "2021"
publish = false

[dependencies]
tree-sitter = "*"
tree-sitter-rust = "*"
tree-sitter-java = "*"
tree-sitter-python = "*"
tree-sitter-c = "*"
tree-sitter-cpp = "*"
serde = { version = "1", features = ["derive"] }
serde_json = "1"
serde_yaml = "*"
anyhow = "1"
clap = { version = "4", features = ["derive"] }
csv = "1"
walkdir = "2"
log = "0.4"
env_logger = "*"
axum = "*"
tokio = { version = "1", features = ["rt-multi-thread", "net"] }
rust-embed = "*"
mime_guess = "2"
open = "*"
tempfile = "3"
rayon = "1"
