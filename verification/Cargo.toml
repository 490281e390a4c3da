[package]
name = "xquery_lsp"
version = "0.1.0"
edition = "2021"
publish = false

[dependencies]
base64 = "0.22"
regex = "1"
serde = { version = "1", features = ["derive"] }
serde_json = "1"
ureq = { version = "2", features = ["json"] }
lsp-types = "0.95"
lsp-server = "0.7"
zed_extension_api = "*"
