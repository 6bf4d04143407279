[package]
name = "hsf"
version = "1.0.0"
edition = "2021"
publish = false

[dependencies]
chrono = "0.4"
libc = "0.2"
ureq = "3"
