[package]
name = "chip_p"
version = "0.1.0"
edition = "2021"

[dependencies]
macroquad = "*"
clap = { version = "*", features = ["derive"] }
