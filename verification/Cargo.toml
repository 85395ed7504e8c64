[package]
name = "rlox"
version = "0.1.0"
edition = "2021"
publish = false

[dependencies]
lsp-server = "*"
lsp-types = "*"
serde = { version = "1", features = ["derive"] }
serde_json = "1"
