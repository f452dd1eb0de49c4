[package]
name = "spirit"
version = "0.1.0"
edition = "2021"
publish = false

[dependencies]
arc-swap = "*"
futures = "0.1"
config = "*"
libc = "*"
log = "*"
serde = { version = "*", features = ["derive"] }
signal-hook = "*"
