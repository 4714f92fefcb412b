[package]
name = "thoth_cli"
version = "0.1.0"
edition = "2021"
publish = false

[dependencies]
anyhow = "1"
arboard = "3"
atty = "0.2"
clap = { version = "4", features = ["derive"] }
copypasta = "0.10"
crossterm = "0.27"
dirs = "5"
pulldown-cmark = "0.9"
pulldown-cmark-to-cmark = "10"
rand = "0.8"
ratatui = "0.27"
serde_json = "1"
syntect = { version = "=5.3.0", default-features = false, features = ["default-fancy"] }
tempfile = "3"
tui-textarea = "=0.5.3"
unicode-width = "0.1"
