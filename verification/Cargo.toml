[package]
name = "blueos_driver"
version = "0.1.0"
edition = "2021"
publish = false

[dependencies]
tock-registers = "=0.9.0"
embedded-hal = "=1.0.0"
