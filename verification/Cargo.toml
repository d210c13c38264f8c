[package]
name = "icon_export"
version = "0.1.0"
edition = "2021"
publish = false

[dependencies]
resvg = "*"
dirs = "*"
