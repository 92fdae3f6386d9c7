[package]
name = "time_logger"
version = "0.1.0"
edition = "2021"
publish = false

[dependencies]
anyhow = "=1.0.104"
chrono = { version = "=0.4.45", default-features = false, features = ["clock"] }
crossterm = "=0.28.1"

[dev-dependencies]
regex = "1"
