[package]
name = "classjoiner"
version = "0.1.0"
edition = "2021"
publish = false

[dependencies]
chrono = { version = "0.4", features = ["serde"] }
clap = { version = "3", features = ["derive"] }
notify-rust = "4"
serde = { version = "1", features = ["derive"] }
toml = "0.5"
