[package]
name = "mediasoup"
version = "0.1.0"
edition = "2021"
publish = false

[dependencies]
mediasoup-sys = "=0.18.1"
planus = "=0.4.0"
serde = { version = "=1.0.229", features = ["derive"] }
once_cell = "=1.21.4"
parking_lot = "=0.12.5"
