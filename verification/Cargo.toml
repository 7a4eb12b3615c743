[package]
name = "nginx-lint"
version = "0.1.0"
edition = "2021"
publish = false

[dependencies]
clap = { version = "4", features = ["derive"] }
colored = "2"
glob = "0.3"
serde = { version = "1", features = ["derive"] }
serde_json = "1"
toml = "0.8"
