[package]
name = "textview"
version = "0.1.0"
edition = "2021"
publish = false

[dependencies]
unicode-segmentation = "*"
unicode-width = "*"
anyhow = "*"
clap = { version = "*", features = ["derive"] }
crossterm = "*"
