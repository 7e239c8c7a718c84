[package]
name = "ancs"
version = "0.1.0"
edition = "2021"
publish = false

[dependencies]
bitflags = "2"
nom = "7"
uuid = "1"
