[package]
name = "code_intel"
version = "0.1.0"
edition = "2021"
publish = false

[dependencies]
tree-sitter = "*"
tree-sitter-c = "*"
tree-sitter-cpp = "*"
tree-sitter-go = "*"
tree-sitter-java = "*"
tree-sitter-javascript = "*"
tree-sitter-kotlin-ng = "*"
tree-sitter-python = "*"
tree-sitter-rust = "*"
tree-sitter-typescript = "*"
sha2 = "*"
hmac = "*"
base64 = "*"
uuid = { version = "*", features = ["v4"] }
serde = { version = "*", features = ["derive"] }
serde_json = "*"
tokio = { version = "*", features = ["full"] }
chrono = { version = "*", features = ["serde"] }
git2 = { version = "*", default-features = false }
ignore = "*"
axum = "*"
futures = "*"
reqwest = { version = "*", default-features = false, features = ["json"] }
async-trait = "*"
