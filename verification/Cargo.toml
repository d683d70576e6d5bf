[package]
name = "capboot"
version = "0.1.0"
edition = "2021"
publish = false

[dependencies]
object = "=0.36.7"
