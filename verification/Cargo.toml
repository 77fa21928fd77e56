[package]
name = "md_tui"
version = "0.1.0"
edition = "2021"
publish = false

[dependencies]
anyhow = "1"
base64 = "=0.22.1"
clap = { version = "4", features = ["derive"] }
crossterm = "=0.29.0"
dirs = "=7.0.0"
ignore = "=0.4.34"
image = { version = "=0.25.10", default-features = false, features = ["png", "jpeg", "gif", "webp", "bmp"] }
open = "=5.4.5"
pulldown-cmark = { version = "=0.13.6", default-features = false }
ratatui = "=0.30.2"
ratatui-image = { version = "=11.1.0", default-features = false, features = ["crossterm"] }
syntect = { version = "=5.3.0", default-features = false, features = ["default-fancy"] }
unicode-width = "=0.2.0"
walkdir = "=2.5.0"
