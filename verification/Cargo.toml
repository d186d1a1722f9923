[package]
name = "jsonquill"
version = "0.14.1"
edition = "2021"
publish = false

[dependencies]
anyhow = "1"
arboard = "*"
clap = { version = "4", features = ["derive"] }
crossterm = "*"
ratatui = "*"
serde_json = "1"

[dev-dependencies]
tempfile = "3"
