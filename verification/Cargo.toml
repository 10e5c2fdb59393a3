[package]
name = "black-box"
version = "0.1.0"
edition = "2021"
publish = false

[dependencies]
async-channel = "2"
pin-project-lite = "0.2"
