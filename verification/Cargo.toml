[package]
name = "fping"
version = "0.1.1"
edition = "2021"
publish = false

[dependencies]
clap = { version = "4", features = ["derive"] }
libc = "0.2"
chrono = "0.4"
cursive = { version = "0.21", default-features = false, features = ["crossterm-backend"] }
