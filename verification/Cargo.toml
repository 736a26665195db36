[package]
name = "rustposix"
version = "0.1.0"
edition = "2021"
publish = false

[dependencies]
dashmap = "5"
sha2 = "0.10"
parking_lot = "0.12"
