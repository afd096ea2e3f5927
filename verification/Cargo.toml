[package]
name = "sql_anonymizer"
version = "0.1.0"
edition = "2021"
publish = false

[dependencies]
clap = { version = "4", features = ["derive"] }
color-eyre = "0.6"
fake = { version = "2", features = ["time"] }
rand = "0.8"
serde_json = "1"
tree-sitter = "0.20"
