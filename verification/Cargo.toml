[package]
name = "klug"
version = "0.1.0"
edition = "2021"
publish = false

[dependencies]
rowan = "*"
num-traits = "*"
num-derive = "*"
