[package]
name = "libqaul"
version = "0.1.0"
edition = "2021"
publish = false

[dependencies]
hex = "0.4"
serde = { version = "1", features = ["derive"] }
serde_json = "1"
bincode = "1"
async-std = "1"
capnp = "*"
directories = "*"
