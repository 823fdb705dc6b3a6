[package]
name = "ncmprs"
version = "0.1.0"
edition = "2021"
publish = false

[dependencies]
audiotags = "*"
color-eyre = "*"
config = { version = "*", default-features = false, features = ["toml"] }
crossterm = "*"
dirs = "*"
discord-rich-presence = "*"
ratatui = "*"
rodio = "*"
serde = { version = "*", features = ["derive"] }
serde_json = "*"
walkdir = "*"
