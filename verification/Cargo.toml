[package]
name = "sensor_qc"
version = "0.1.0"
edition = "2021"
publish = false

[dependencies]
chrono = "0.4"
clap = { version = "4", features = ["derive"] }
libloading = "0.8"
pyo3 = "0.20"
serde = { version = "1", features = ["derive"] }
serde_derive = "1"
sqlite = "*"
toml = "0.8"
