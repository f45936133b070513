[package]
name = "blue_ide"
version = "0.1.0"
edition = "2021"
publish = false

[dependencies]
serde = { version = "=1.0.229", features = ["derive"] }
serde_json = "=1.0.154"
git2 = { version = "=0.18.3", default-features = false }
directories = "=5.0.1"
ignore = "=0.4.34"
crossbeam-channel = "=0.5.17"
lsp-types = "=0.95.1"
pulldown-cmark = { version = "0.10", default-features = false }
