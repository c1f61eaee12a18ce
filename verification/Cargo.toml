[package]
name = "papyrus-language-server"
version = "0.2.0"
edition = "2021"
publish = false

[dependencies]
blake3 = "1"
lsp-server = "0.7"
lsp-types = "0.97"
serde = { version = "1", features = ["derive"] }
serde_json = "1"
tree-sitter = "0.25"
tree-sitter-language = "0.1"
winreg = "*"
zip = { version = "2", default-features = false, features = ["deflate"] }
