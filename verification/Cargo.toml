[package]
name = "dbus-pure"
version = "0.1.0"
edition = "2021"
publish = false

[dependencies]
libc = "0.2"
percent-encoding = "2"
serde = "1"
