[package]
name = "freya"
version = "0.1.0"
edition = "2021"
publish = false

[dependencies]
ropey = "1"
chrono = { version = "0.4", default-features = false, features = ["clock", "std"] }
pulldown-cmark = { version = "0.13", default-features = false }
tree-sitter = "0.25"
tree-sitter-rust = "0.24"
tree-sitter-json = "0.24"
tree-sitter-toml-ng = "0.7"
tree-sitter-md = "0.3"
tree-sitter-sequel = "0.3"
smallvec = "1"
rustc-hash = "2"
thiserror = "2"
