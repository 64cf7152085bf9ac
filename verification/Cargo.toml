[package]
name = "httphead"
version = "0.1.0"
edition = "2021"
publish = false

[dependencies]
http = "0.1"
bytes = "0.4"
