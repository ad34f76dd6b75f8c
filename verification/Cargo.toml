[package]
name = "ziro"
version = "0.1.0"
edition = "2021"
publish = false

[dependencies]
arboard = "3"
crossterm = "*"
ratatui = "*"
serde = { version = "1", features = ["derive"] }
serde_json = "1"
syntect = { version = "5", default-features = false, features = ["default-fancy"] }
