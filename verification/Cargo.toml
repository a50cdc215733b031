[package]
name = "event_timers"
version = "0.1.0"
edition = "2021"
publish = false

[dependencies]
serde = { version = "=1.0.229", features = ["derive"] }
serde_json = "=1.0.154"
once_cell = "=1.21.4"
parking_lot = "=0.12.5"
