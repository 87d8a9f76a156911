[package]
name = "wubrag"
version = "0.1.0"
edition = "2021"
publish = false

[dependencies]
sha2 = "*"
tree-sitter = "*"
tree-sitter-rust = "*"
tree-sitter-c = "*"
tree-sitter-cpp = "*"
tree-sitter-cuda = "*"
tree-sitter-javascript = "*"
tree-sitter-python = "*"
jwalk = "*"
rayon = "*"
log = "*"
thiserror = "*"
