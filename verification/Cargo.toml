[package]
name = "adze"
version = "0.1.0"
edition = "2021"
publish = false

[dependencies]
dunce = "*"
