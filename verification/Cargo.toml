[package]
name = "commonmark_pango"
version = "0.1.0"
edition = "2021"
publish = false

[dependencies]
syntect = { version = "*", default-features = false, features = ["default-fancy"] }
markdown = "*"
anyhow = "*"

[dev-dependencies]
html2pango = "*"
