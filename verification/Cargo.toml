[package]
name = "svg2asy"
version = "0.1.0"
edition = "2021"
publish = false

[dependencies]
anyhow = "*"
clap = { version = "*", features = ["derive"] }
rust_decimal = "*"
usvg = "*"
