[package]
name = "mdbook_treesitter"
version = "0.1.0"
edition = "2021"
publish = false

[dependencies]
pulldown-cmark = "*"
html-escape = "*"
tree-sitter = "*"
tree-sitter-highlight = "*"
libloading = "*"
clap = { version = "*", features = ["derive"] }
serde_json = "*"
tracing = "*"
tracing-subscriber = { version = "*", features = ["env-filter"] }
mdbook-preprocessor = "*"
