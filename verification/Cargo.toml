[package]
name = "ili9341"
version = "0.1.0"
edition = "2021"
publish = false

[dependencies]
display-interface = "*"
embedded-graphics-core = "*"
