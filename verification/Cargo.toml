[package]
name = "usid"
version = "0.1.0"
edition = "2021"
publish = false

[dependencies]
uuid = "1"
serde = "1"
