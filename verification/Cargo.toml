[package]
name = "probe_blocks"
version = "0.1.0"
edition = "2021"
publish = false

[dependencies]
tree-sitter = "*"
tree-sitter-go = "*"
tree-sitter-rust = "*"
tree-sitter-javascript = "*"
tree-sitter-python = "*"
dashmap = "*"
once_cell = "*"
anyhow = "*"
clap = { version = "*", features = ["derive"] }

[dev-dependencies]
tempfile = "*"
