[package]
name = "logseq-i18n-lint"
version = "0.1.0"
edition = "2021"
publish = false

[dependencies]
regex = "1"
globset = "0.4"
serde = { version = "1", features = ["derive"] }
toml = "0.8"
clap = { version = "4", features = ["derive"] }
colored = "2"
unicode-width = "0.2"
walkdir = "2"
rayon = "1"
