[package]
name = "vnodes"
version = "0.1.0"
edition = "2021"
publish = false

[dependencies]
bitflags = "1.3"
log = "0.4"
parking_lot = "0.12"
