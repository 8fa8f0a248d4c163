[package]
name = "blame"
version = "0.1.0"
edition = "2021"
publish = false

[dependencies]
ansi-to-tui = "*"
clap = { version = "*", features = ["derive"] }
crossterm = "*"
ratatui = "*"
syntect = "*"
