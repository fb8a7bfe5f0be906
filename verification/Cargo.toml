[package]
name = "git-ui"
version = "0.1.0"
edition = "2021"
publish = false

[dependencies]
similar = "3"
syntect = { version = "=5.3.0", default-features = false, features = ["default-fancy"] }
ratatui = "=0.29.0"
anyhow = "=1.0.104"
