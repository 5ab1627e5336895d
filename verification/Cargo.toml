[package]
name = "snespatch"
version = "0.1.0"
edition = "2021"
publish = false

[dependencies]
sxd-document = "*"
sxd-xpath = "*"
