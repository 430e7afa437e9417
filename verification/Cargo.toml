[package]
name = "kmodinfo"
version = "0.1.0"
edition = "2021"
publish = false

[dependencies]
flate2 = "1"
libc = "0.2"
walkdir = "2"
