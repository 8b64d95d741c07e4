[package]
name = "rust_menu"
version = "0.1.0"
edition = "2021"
publish = false

[dependencies]
itertools = "*"
crossterm = "*"
