[package]
name = "powerplay"
version = "0.1.0"
edition = "2021"
publish = false

[dependencies]
tiny-keccak = "1.5"
parity-scale-codec = { version = "3", features = ["derive"] }
parking_lot = "0.12"
futures = "0.3"
