[package]
name = "mdbook-luacats"
version = "0.1.0"
edition = "2021"
publish = false

[dependencies]
anyhow = "1"
clap = "4"
itertools = "0.12"
log = "0.4"
mdbook = { version = "0.4", default-features = false }
serde = { version = "1", features = ["derive"] }
serde_json = "1"
tempdir = "0.3"
thiserror = "1"
toml = "0.5"
url = "2"
