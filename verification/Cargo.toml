[package]
name = "herdr_copy_search"
version = "0.1.0"
edition = "2021"
publish = false

[dependencies]
regex = "1"
unicode-width = "*"
base64 = "*"
crossterm = "*"
