[package]
name = "rael_obj"
version = "0.1.0"
edition = "2021"
publish = false

[dependencies]
crossterm = "=0.29.0"
image = "=0.25.10"
obj-rs = "*"
rael = "=0.1.3"
