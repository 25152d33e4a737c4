[package]
name = "cearch"
version = "0.1.0"
edition = "2021"
publish = false

[dependencies]
tree-sitter = "=0.27.0"
tree-sitter-python = "=0.25.0"
tree-sitter-rust = "=0.24.2"
rusqlite = { version = "=0.40.2", features = ["bundled"] }
fastembed = "=7.1.1"
clap = { version = "=4.6.7", features = ["derive"] }
indicatif = "=0.18.6"
directories = "=6.0.0"
