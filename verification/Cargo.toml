[package]
name = "extension-eyre"
version = "0.1.0"
edition = "2021"
publish = false

[dependencies]
color-eyre = { version = "0.6", features = ["issue-url"] }
eyre = "0.6"
