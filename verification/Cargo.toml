[package]
name = "phrep"
version = "0.1.0"
edition = "2021"
publish = false

[dependencies]
regex = "*"
tree-sitter = "*"
tree-sitter-php = "*"
dirs = "*"
clap = { version = "*", features = ["derive"] }
walkdir = "*"
