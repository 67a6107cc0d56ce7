[package]
name = "siggy"
version = "0.1.0"
edition = "2021"
publish = false

[dependencies]
anyhow = "*"
base64 = "*"
chrono = "*"
crossterm = "*"
dirs = "*"
icy_sixel = "*"
image = "*"
ratatui = "*"
