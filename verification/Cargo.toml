[package]
name = "nbtedit"
version = "0.1.0"
edition = "2021"
publish = false

[dependencies]
flate2 = "1"
iced = { version = "0.12", default-features = false, features = ["lazy"] }
