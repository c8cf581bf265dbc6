[package]
name = "cargo_raze"
version = "0.1.0"
edition = "2021"
publish = false

[dependencies]
anyhow = "=1.0.104"
cargo-lock = "7.1"
cargo-platform = "=0.1.9"
cargo_metadata = "=0.12.3"
cargo_toml = "=0.14.1"
itertools = "=0.9.0"
semver = "1.0"
structopt = "=0.3.26"
tempfile = "=3.27.0"
toml = "=0.5.11"
