[package]
name = "xdg_tui"
version = "0.1.0"
edition = "2021"
publish = false

[dependencies]
anyhow = "=1.0.104"
crossterm = "=0.28.1"
dirs = "=5.0.1"
freedesktop-desktop-entry = { version = "=0.8.4", default-features = false }
ratatui = "=0.29.0"
