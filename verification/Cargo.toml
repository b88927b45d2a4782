[package]
name = "captcha_keyspace"
version = "0.1.0"
edition = "2021"
publish = false

[dependencies]
captcha-rs = "*"
rand = "0.9"
rayon = "1"
