[package]
name = "ui"
version = "0.1.0"
edition = "2021"
publish = false

[dependencies]
libc = "=0.2.191"
ui-sys = { version = "=0.1.3", default-features = false }
