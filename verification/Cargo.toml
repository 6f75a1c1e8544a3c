[package]
name = "typst_lt"
version = "0.1.0"
edition = "2021"
publish = false

[dependencies]
annotate-snippets = "0.9"
dashmap = "*"
languagetool-rust = "*"
serde_json = "1"
tokio = { version = "1", features = ["full"] }
tower-lsp = "*"
typst-syntax = "*"
