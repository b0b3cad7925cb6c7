[package]
name = "cargo_core"
version = "0.1.0"
edition = "2021"
publish = false

[dependencies]
git2 = { version = "*", default-features = false }
glob = "0.3"
semver = "1"
serde = { version = "1", features = ["derive"] }
serde_ignored = "0.1"
toml = "*"
