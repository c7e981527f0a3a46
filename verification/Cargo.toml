[package]
name = "worktime"
version = "0.1.0"
edition = "2021"
publish = false

[dependencies]
chrono = { version = "*", features = ["serde"] }
clap = { version = "*", features = ["derive"] }
confy = "*"
csv = "*"
expanduser = "*"
named-lock = "*"
rdev = "*"
serde = { version = "*", features = ["derive"] }
signal-hook = "*"
