[package]
name = "ruvex"
version = "0.1.0"
edition = "2021"
publish = false

[dependencies]
anyhow = "*"
clap = { version = "*", features = ["derive"] }
colored = "*"
env_logger = "*"
log = "*"
prettytable-rs = "*"
serde = { version = "*", features = ["derive"] }
serde_yaml = "*"
thiserror = "*"
