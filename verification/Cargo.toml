[package]
name = "phrase"
version = "0.1.0"
edition = "2021"
publish = false

[dependencies]
utf8-decode = "=1.0.1"
