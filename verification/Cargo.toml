[package]
name = "eddie"
version = "0.1.0"
edition = "2021"
publish = false

[dependencies]
toml = "*"
dirs = "*"
walkdir = "*"
crossterm = "*"
