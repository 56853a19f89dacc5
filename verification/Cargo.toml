[package]
name = "wireutil"
version = "0.1.0"
edition = "2021"
publish = false

[dependencies]
bytes = "1"
lock_api = "0.4"
parking_lot = "0.12"

[dev-dependencies]
rand = "0.8"
