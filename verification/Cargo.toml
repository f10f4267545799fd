[package]
name = "aura_lang"
version = "0.1.0"
edition = "2021"
publish = false

[dependencies]
regex = "=1.13.1"
miette = "=7.6.0"
serde = { version = "=1.0.229", features = ["derive"] }
serde_json = "=1.0.154"
clap = { version = "4", features = ["derive"] }
thiserror = "2"
