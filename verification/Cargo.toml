[package]
name = "gdscript_ls"
version = "0.1.0"
edition = "2021"
publish = false

[dependencies]
async-lsp = "*"
futures = "*"
parking_lot = "*"
ropey = { version = "=1.6.1", default-features = false }
serde = { version = "*", features = ["derive"] }
serde_json = "*"
streaming-iterator = "*"
tokio = { version = "*", features = ["full"] }
tokio-util = { version = "*", features = ["compat"] }
tower = { version = "*", features = ["util"] }
tracing = "*"
tracing-subscriber = "*"
tree-sitter = "=0.27.0"
tree-sitter-gdscript = "=6.1.0"
