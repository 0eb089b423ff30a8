[package]
name = "footnote_preprocessor"
version = "0.1.0"
edition = "2021"
publish = false

[dependencies]
mdbook = { version = "0.4", default-features = false }
clap = "2"
serde_json = "1"
toml = "0.5"
log = "0.4"
env_logger = "0.10"
