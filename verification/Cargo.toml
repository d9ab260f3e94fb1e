[package]
name = "connect_4"
version = "0.1.0"
edition = "2021"
publish = false

[dependencies]
rand = "=0.8.8"
getrandom = { version = "=0.2.17", features = ["custom"] }
