[package]
name = "mdbx"
version = "0.1.0"
edition = "2021"
publish = false

[dependencies]
anyhow = "1"
ctor = "0.2"
lazy_static = "1"
libc = "0.2"
log = "0.4"
os_str_bytes = "6"
paste = "1"
