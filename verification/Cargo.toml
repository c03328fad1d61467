[package]
name = "piscine"
version = "0.1.0"
edition = "2021"
publish = false

[dependencies]
ftkit = "=0.1.12"
unicode-width = "=0.2.2"
