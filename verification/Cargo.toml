[package]
name = "tiny_terminal_snake"
version = "0.2.0"
edition = "2021"
publish = false

[dependencies]
rand = "*"
clap = { version = "*", features = ["derive"] }
termion = "*"
