[package]
name = "term_palette"
version = "0.1.0"
edition = "2021"
publish = false

[dependencies]
clap = { version = "=4.6.7", features = ["derive"] }
color-thief = "=0.2.2"
image = { version = "=0.24.9", default-features = false, features = ["png", "jpeg"] }
miette = { version = "=5.10.0", features = ["fancy"] }
okolors = "=0.4.0"
pastel = "=0.10.0"
