[package]
name = "bevscode"
version = "0.1.0"
edition = "2021"
publish = false

[dependencies]
ropey = "=1.6.1"
fuzzy-matcher = "=0.3.7"
lsp-types = "=0.97.0"
arboard = "=3.7.0"
serde_json = "=1.0.154"
