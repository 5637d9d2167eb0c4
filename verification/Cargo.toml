[package]
name = "ostn02_phf"
version = "0.1.0"
edition = "2021"
publish = false

[dependencies]
libc = "0.2"
phf = "=0.14.0"
phf_generator = "=0.14.0"
