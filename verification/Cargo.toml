[package]
name = "lsd"
version = "0.1.0"
edition = "2021"
publish = false

[dependencies]
crossterm = { version = "0.27", default-features = false }
term_grid = "0.1"
terminal_size = "0.3"
unicode-width = "0.2"
