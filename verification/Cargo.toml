[package]
name = "pass_tomb"
version = "0.1.0"
edition = "2021"
publish = false

[dependencies]
age = "0.11"
anyhow = "1"
clap = { version = "4", features = ["derive"] }
dirs = "5"
libc = "0.2"
rand = "0.8"
rpassword = "7"
