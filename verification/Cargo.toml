[package]
name = "sandcastle"
version = "0.1.0"
edition = "2021"
publish = false

[dependencies]
curl-sys = "0.4"
libc = "0.2"
