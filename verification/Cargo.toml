[package]
name = "engine"
version = "0.1.0"
edition = "2021"
publish = false

[dependencies]
serde = { version = "1", features = ["derive"] }
serde_json = "1"
thiserror = "*"
chrono = "0.4"
uuid = { version = "1", features = ["v4"] }
rusqlite = { version = "*", features = ["bundled"] }
tree-sitter = "*"
tree-sitter-typescript = "*"
tree-sitter-javascript = "*"
tree-sitter-rust = "*"
ignore = "*"
reqwest = { version = "*", default-features = false, features = ["json"] }
async-trait = "*"
tracing = "*"
