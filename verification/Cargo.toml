[package]
name = "hazard-analyzer"
version = "0.1.0"
edition = "2021"
publish = false

[dependencies]
regex = "1"
rust-code-analysis = "*"
crossbeam = "0.8"
rayon = "1"
serde = { version = "1", features = ["derive"] }
serde_json = "1"
termcolor = "1"
clap = { version = "4", features = ["derive"] }
git2 = { version = "*", default-features = false }
toml = "*"
rustdoc-json = "*"
rustdoc-types = "*"
