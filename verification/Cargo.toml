[package]
name = "gwae"
version = "0.1.0"
edition = "2021"
publish = false

[dependencies]
crossterm = "*"
unicode-width = "*"
portable-pty = "*"
libc = "*"
tracing = "*"
