[package]
name = "raspi_sensor"
version = "0.1.0"
edition = "2021"
publish = false

[dependencies]
anyhow = "=1.0.104"
embedded-hal = "=1.0.0"
embedded-timers = { version = "=0.4.0", features = ["std"] }
rppal = "=0.22.1"
