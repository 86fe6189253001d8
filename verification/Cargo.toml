[package]
name = "fjall"
version = "0.1.0"
edition = "2021"
publish = false

[dependencies]
lsm-tree = "*"
crc32fast = "*"
std-semaphore = "*"

[dev-dependencies]
tempfile = "*"
