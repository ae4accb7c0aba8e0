[package]
name = "wire_build"
version = "0.1.0"
edition = "2021"
publish = false

[dependencies]
heck = "*"
syn = { version = "2", features = ["full"] }
proc-macro2 = "1"
quote = "1"
