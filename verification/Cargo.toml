[package]
name = "license_page"
version = "0.1.0"
edition = "2021"
publish = false

[dependencies]
spdx = { version = "*", features = ["text"] }
