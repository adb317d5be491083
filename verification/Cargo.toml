[package]
name = "generation"
version = "0.1.0"
edition = "2021"
publish = false

[dependencies]
serde = { version = "=1.0.229", features = ["derive"] }
serde_json = "=1.0.154"
syn = { version = "=2.0.119", features = ["full", "visit", "extra-traits", "printing", "parsing"] }
quote = "=1.0.47"
proc-macro2 = "=1.0.107"
prettyplease = "=0.2.37"
miette = "=7.6.0"
thiserror = "=2.0.21"
clap = { version = "=4.6.7", features = ["derive"] }
tree-sitter = "=0.27.1"
unicode-ident = "=1.0.27"
