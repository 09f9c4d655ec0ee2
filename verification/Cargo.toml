[package]
name = "clippy_lintcheck"
version = "0.1.0"
edition = "2021"
publish = false

[dependencies]
bstr = "=1.13.1"
regex = "=1.13.1"
rustc-semver = "=1.1.0"
semver = "=1.0.28"
serde = { version = "=1.0.229", features = ["derive"] }
serde_json = "=1.0.154"
toml = "=1.1.8"
cargo_metadata = "=0.23.1"
cargo-util-schemas = "=0.12.0"
walkdir = "=2.5.0"
crossbeam-channel = "=0.5.17"
