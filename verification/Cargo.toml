[package]
name = "codeatlas"
version = "0.1.0"
edition = "2021"
publish = false

[dependencies]
tree-sitter = "0.25"
tree-sitter-rust = "0.23"
ignore = "0.4"
walkdir = "2"
clap = "4"
serde = { version = "1", features = ["derive"] }
serde_json = "1"
