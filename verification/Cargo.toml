[package]
name = "tsm_language_server"
version = "0.1.0"
edition = "2021"
publish = false

[dependencies]
tree-sitter = "0.22"
tree-sitter-typescript = "0.21"
fuzzy-matcher = "0.3"
serde_json = "1"
tower-lsp = "0.20"
tokio = { version = "1", features = ["macros", "rt-multi-thread", "io-std", "io-util"] }
clap = { version = "4", features = ["derive"] }
