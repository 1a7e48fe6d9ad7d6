[package]
name = "terminal-slide"
version = "0.1.0"
edition = "2021"
publish = false

[dependencies]
pulldown-cmark = "*"
syntect = { version = "*", default-features = false, features = ["default-fancy"] }
ratatui = "*"
tachyonfx = "*"
tiny_http = "*"
open = "*"
clap = { version = "*", features = ["derive"] }
anyhow = "*"
