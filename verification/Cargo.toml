[package]
name = "sciurus"
version = "0.1.0"
edition = "2021"
publish = false

[dependencies]
base64 = "0.13"
hyper = "0.10"
json = "0.12"
