[package]
name = "tiny_browserbook"
version = "0.1.0"
edition = "2021"
publish = false

[dependencies]
cursive = "*"
v8 = "*"
