[package]
name = "steel"
version = "0.1.0"
edition = "2021"
publish = false

[dependencies]
libloading = "=0.9.0"
stabby = { version = "=72.1.16", features = ["libloading"] }
