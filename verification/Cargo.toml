[package]
name = "ansible_vault_lsp"
version = "0.2.0"
edition = "2021"
publish = false

[dependencies]
anyhow = "1"
dashmap = "*"
dirs = "*"
serde = { version = "1", features = ["derive"] }
serde-saphyr = "*"
serde_json = "1"
sha2 = "*"
tempfile = "3"
thiserror = "*"
tokio = { version = "1", features = ["io-std", "io-util", "macros", "process", "rt-multi-thread", "sync", "time"] }
tower-lsp = "0.20"
tree-sitter = "*"
tree-sitter-yaml = "*"
which = "*"
zed_extension_api = "*"
zeroize = "1"
