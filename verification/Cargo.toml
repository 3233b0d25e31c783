[package]
name = "bengal"
version = "0.1.0"
edition = "2021"
publish = false

[dependencies]
serde = { version = "=1.0.229", features = ["derive"] }
rmp-serde = "=1.3.1"
toml = "=0.8.23"
clap = { version = "=4.6.7", features = ["derive"] }
miette = { version = "=7.6.0", features = ["fancy"] }
thiserror = "=2.0.21"
logos = "0.14"
