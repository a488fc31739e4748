[package]
name = "serial_monitor"
version = "0.1.0"
edition = "2021"
publish = false

[dependencies]
chrono = { version = "=0.4.45", default-features = false, features = ["clock", "std"] }
serde = { version = "1", features = ["derive"] }
serde_json = "1"
anyhow = "1"
crossbeam-channel = "0.5"
dirs = "=5.0.1"
tracing = "0.1"
serialport = { version = "=4.10.1", default-features = false }
egui = { version = "=0.29.1", default-features = false }
