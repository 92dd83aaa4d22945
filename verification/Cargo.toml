[package]
name = "forever_safer"
version = "0.1.0"
edition = "2021"
publish = false

[dependencies]
flume = "*"
rand = "*"
