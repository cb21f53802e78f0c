[package]
name = "deadline"
version = "0.1.0"
edition = "2021"
publish = false

[dependencies]
chrono = { version = "=0.4.45", features = ["serde"] }
clap = { version = "=4.6.7", features = ["derive"] }
colored = "=3.1.1"
directories = "=6.0.0"
serde = { version = "=1.0.229", features = ["derive"] }
serde_json = "=1.0.154"
