[package]
name = "objectscript_lsp"
version = "0.1.0"
edition = "2021"
publish = false

[dependencies]
tree-sitter = "=0.27.1"
tree-sitter-objectscript = "=1.9.22"
serde = { version = "=1.0.229", features = ["derive"] }
serde_json = "=1.0.154"
tower-lsp = "=0.20.0"
tokio = { version = "=1.54.1", features = ["rt-multi-thread", "macros", "io-std"] }
parking_lot = "=0.13.0"
walkdir = "=2.5.0"
