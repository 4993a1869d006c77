[package]
name = "time_tracker"
version = "0.1.0"
edition = "2021"
publish = false

[dependencies]
csv = "*"
clap = { version = "*", features = ["derive"] }
chrono = "*"
dirs = "*"
