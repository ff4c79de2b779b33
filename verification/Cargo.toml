[package]
name = "web_asset"
version = "0.1.0"
edition = "2021"
publish = false

[dependencies]
slug = "*"
directories = "*"
surf = { version = "*", default-features = false, features = ["h1-client-rustls"] }
notify = "*"
crossbeam-channel = "*"
pin-project = "*"
