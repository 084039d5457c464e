[package]
name = "oftb"
version = "0.1.0"
edition = "2021"
publish = false

[dependencies]
symbol = "0.1"
