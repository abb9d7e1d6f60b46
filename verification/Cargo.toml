[package]
name = "ctx-codegraph"
version = "0.1.0"
edition = "2021"
publish = false

[dependencies]
sha2 = "0.10"
rusqlite = { version = "*", features = ["bundled"] }
serde = { version = "1", features = ["derive"] }
serde_json = "1"
walkdir = "2"
tree-sitter = "*"
tree-sitter-rust = "*"
