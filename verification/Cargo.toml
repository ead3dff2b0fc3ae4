[package]
name = "mcp_nano"
version = "0.1.0"
edition = "2021"
publish = false

[dependencies]
chrono = "=0.4.45"
uuid = { version = "=1.29.0", features = ["v4", "v5"] }
regex = "=1.13.1"
url = "=2.5.8"
murmur3 = "=0.5.2"
rust-stemmers = "=1.2.0"
serde_json = "=1.0.154"
scraper = "=0.29.0"
quick-xml = "=0.41.0"
csv = "=1.4.0"
flate2 = "=1.1.10"
tree-sitter = "=0.27.1"
tree-sitter-java = "=0.23.5"
tree-sitter-python = "=0.25.0"
tree-sitter-rust = "=0.24.2"
tree-sitter-c = "=0.24.2"
tree-sitter-cpp = "=0.23.4"
tree-sitter-c-sharp = "=0.23.5"
tree-sitter-javascript = "=0.25.0"
tree-sitter-typescript = "=0.23.2"
tree-sitter-sequel = "=0.3.11"
sha2 = "=0.10.9"

