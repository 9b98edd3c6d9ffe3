[package]
name = "tfmod"
version = "0.1.0"
edition = "2021"
publish = false

[dependencies]
anyhow = "*"
clap = { version = "*", features = ["derive"] }
dialoguer = "*"
etcetera = "*"
serde = { version = "*", features = ["derive"] }
thiserror = "*"
toml = "*"
