[package]
name = "printlnc"
version = "0.1.0"
edition = "2021"
publish = false

[dependencies]
syn = { version = "0.13", features = ["full"] }
