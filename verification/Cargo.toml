[package]
name = "dtfterminal"
version = "0.1.0"
edition = "2021"
publish = false

[dependencies]
clap = { version = "*", features = ["derive"] }
colored = "*"
html-builder = "*"
opener = "*"
serde = { version = "*", features = ["derive"] }
serde_json = "*"
serde_yaml = "*"
spinners = "*"
term-table = "*"
