[package]
name = "puppetfile"
version = "0.1.0"
edition = "2021"
publish = false

[dependencies]
semver = "1"
rustc-serialize = "0.3"
hyper = "0.10"
