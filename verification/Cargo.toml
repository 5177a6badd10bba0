[package]
name = "img2epub"
version = "0.1.0"
edition = "2021"
publish = false

[dependencies]
image = "*"
rayon = "*"
epub-builder = "*"
zip = "*"
clap = { version = "*", features = ["derive"] }
indicatif = "*"
tempfile = "*"
