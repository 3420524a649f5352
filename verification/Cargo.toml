[package]
name = "ast-doc-core"
version = "0.1.0"
edition = "2021"
publish = false

[dependencies]
globset = "*"
tiktoken-rs = "*"
tree-sitter = "*"
tree-sitter-rust = "*"
tree-sitter-python = "*"
tree-sitter-typescript = "*"
tree-sitter-go = "*"
tree-sitter-c = "*"
tree-sitter-language-pack = "*"
termtree = "*"
git2 = { version = "*", default-features = false }
ignore = "*"
rayon = "*"
clap = { version = "4", features = ["derive"] }
eyre = "*"
thiserror = "*"
serde_json = "*"
tracing = "*"
tracing-subscriber = "*"
