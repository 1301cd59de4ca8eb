[package]
name = "locale-breeze"
version = "0.1.0"
edition = "2021"
publish = false

[dependencies]
anyhow = "1"
arc-swap = "1"
globset = "0.4"
ignore = "0.4"
lsp-server = "0.7"
lsp-types = "0.95"
notify = "8"
schemars = "1"
serde = { version = "1", features = ["derive"] }
serde_json = "1"
thiserror = "2"
tracing-subscriber = "0.3"
tree-sitter = "0.25"
tree-sitter-json = "0.24"
tree-sitter-typescript = "0.23"
url = { version = "2", features = ["serde"] }

[dev-dependencies]
tempfile = "3"
