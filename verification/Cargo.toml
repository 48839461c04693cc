[package]
name = "clash_sandbox"
version = "0.1.0"
edition = "2021"
publish = false

[dependencies]
regex = "1"
landlock = "0.4"
seccompiler = "0.4"
libc = "0.2"
dirs = "5"
serde = { version = "1", features = ["derive"] }
