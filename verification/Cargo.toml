[package]
name = "al_lsp"
version = "0.1.0"
edition = "2021"
publish = false

[dependencies]
dashmap = "=5.5.3"
ropey = "=1.6.1"
tower-lsp = "=0.20.0"
tokio = { version = "=1.54.1", features = ["rt-multi-thread", "macros", "io-std"] }
tracing = "=0.1.44"
tracing-subscriber = "=0.3.23"
tree-sitter = "=0.24.7"
