[package]
name = "st7920"
version = "0.1.0"
edition = "2021"
publish = false

[dependencies]
embedded-hal = "*"
embedded-graphics = "*"
