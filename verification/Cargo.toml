[package]
name = "tag_filter"
version = "0.1.0"
edition = "2021"
publish = false

[dependencies]
quick-xml = "*"
anyhow = "*"
clap = { version = "*", features = ["derive"] }
walkdir = "*"
