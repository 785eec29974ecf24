[package]
name = "radio_station"
version = "0.1.0"
edition = "2021"
publish = false

[dependencies]
frand = "*"
yaml-rust2 = "*"
awedio = { version = "*", default-features = false }
